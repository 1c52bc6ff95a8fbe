//! Helpers for what discovery reports.

use crate::text::{
    all_digits, chars_of, decimal, find_char, is_digit, lemma_decimal_grows, lemma_split_nonempty,
    parse_i32, split, split_from,
};
use vstd::prelude::*;
use vstd::slice::slice_subrange;
use vstd::string::*;

verus! {

/// Whether `s` spells one part of a dotted IPv4 address: one to three
/// decimal digits, no leading zero before another digit, at most 255.
pub open spec fn is_octet(s: Seq<char>) -> bool {
    &&& 1 <= s.len() <= 3
    &&& all_digits(s)
    &&& (s.len() == 1 || s[0] != '0')
    &&& decimal(s) <= 255
}

/// Whether `s` spells an IPv4 address: four such parts with dots between.
pub open spec fn is_ipv4(s: Seq<char>) -> bool {
    let parts = split(s, '.');
    &&& parts.len() == 4
    &&& is_octet(parts[0])
    &&& is_octet(parts[1])
    &&& is_octet(parts[2])
    &&& is_octet(parts[3])
}

/// Those of `addresses` that spell an IPv4 address, in their order.
pub open spec fn ipv4_only(addresses: Seq<Seq<char>>) -> Seq<Seq<char>>
    decreases addresses.len(),
{
    if addresses.len() == 0 {
        Seq::empty()
    } else if is_ipv4(addresses.last()) {
        ipv4_only(addresses.drop_last()).push(addresses.last())
    } else {
        ipv4_only(addresses.drop_last())
    }
}

/// The texts of a list of strings, in order.
pub open spec fn texts(strings: Seq<String>) -> Seq<Seq<char>> {
    strings.map_values(|s: String| s@)
}

/// Whether `s` spells one part of a dotted IPv4 address.
pub fn is_octet_text(s: &[char]) -> (b: bool)
    ensures
        b == is_octet(s@),
{
    let n = s.len();
    if n < 1 || n > 3 {
        return false;
    }
    let first: u32 = s[0] as u32;
    if first < 0x30 || first > 0x39 {
        assert(!is_digit(s@[0]));
        return false;
    }
    if n > 1 && s[0] == '0' {
        return false;
    }
    proof {
        if all_digits(s@) {
            lemma_decimal_grows(s@, 0);
        }
    }
    match parse_i32(s) {
        Some(value) => value <= 255,
        None => false,
    }
}

/// Whether `text` spells an IPv4 address in dotted decimal form.
pub fn is_ipv4_address(text: &str) -> (b: bool)
    ensures
        b == is_ipv4(text@),
{
    let chars = chars_of(text);
    let s: &[char] = chars.as_slice();
    let n = s.len();
    proof {
        reveal_with_fuel(split_from, 5);
    }
    let d1 = find_char(s, '.', 0);
    if d1 == n {
        return false;
    }
    let d2 = find_char(s, '.', d1 + 1);
    if d2 == n {
        return false;
    }
    let d3 = find_char(s, '.', d2 + 1);
    if d3 == n {
        return false;
    }
    let d4 = find_char(s, '.', d3 + 1);
    if d4 < n {
        proof {
            lemma_split_nonempty(s@, '.', d4 + 1);
        }
        return false;
    }
    is_octet_text(slice_subrange(s, 0, d1)) && is_octet_text(slice_subrange(s, d1 + 1, d2))
        && is_octet_text(slice_subrange(s, d2 + 1, d3)) && is_octet_text(
        slice_subrange(s, d3 + 1, n),
    )
}

/// Those of the addresses that an instance reports which are IPv4 addresses.
pub fn get_ipv4_addresses(all_ips: Vec<String>) -> (result: Vec<String>)
    ensures
        texts(result@) == ipv4_only(texts(all_ips@)),
{
    let mut result: Vec<String> = Vec::new();
    let mut i: usize = 0;
    assert(texts(result@) =~= Seq::<Seq<char>>::empty());
    while i < all_ips.len()
        invariant
            i <= all_ips@.len(),
            texts(result@) == ipv4_only(texts(all_ips@).take(i as int)),
        decreases all_ips@.len() - i,
    {
        let ghost all = texts(all_ips@);
        let ghost kept = texts(result@);
        assert(all.take(i + 1).drop_last() =~= all.take(i as int));
        assert(all.take(i + 1).last() == all_ips@[i as int]@);
        if is_ipv4_address(all_ips[i].as_str()) {
            result.push(all_ips[i].clone());
            assert(texts(result@) =~= kept.push(all_ips@[i as int]@));
        }
        i += 1;
    }
    assert(texts(all_ips@).take(all_ips@.len() as int) =~= texts(all_ips@));
    result
}

} // verus!
