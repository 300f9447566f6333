//! IPv4 addresses in dotted form: four decimal octets separated by
//! dots, none with a leading zero.

use crate::authority::{all_host_chars, lemma_digits_are_host_chars, lemma_host_chars_concat};
use crate::text::{
    all_decimal, append_decimal, decimal_text, decimal_value, fields, is_decimal_digit,
    lemma_decimal_text, lemma_decimal_text_plain, lemma_fields_append, lemma_fields_cover,
    lemma_fields_single, split_fields, views,
};
use vstd::prelude::*;

verus! {

/// `t` is a decimal octet: one to three digits, no leading zero, at most 255.
pub open spec fn is_octet_text(t: Seq<char>) -> bool {
    &&& 1 <= t.len() <= 3
    &&& all_decimal(t)
    &&& (t.len() > 1 ==> t[0] != '0')
    &&& decimal_value(t) <= 255
}

/// The octet that `t` writes, if it is a decimal octet.
pub open spec fn octet_of_text(t: Seq<char>) -> Option<u8> {
    if is_octet_text(t) {
        Some(decimal_value(t) as u8)
    } else {
        None
    }
}

/// The IPv4 address that `s` writes: four decimal octets separated by dots.
pub open spec fn ipv4_of_text(s: Seq<char>) -> Option<Seq<u8>> {
    let parts = fields(s, '.');
    if parts.len() == 4 && (forall|i: int| 0 <= i < 4 ==> is_octet_text(#[trigger] parts[i])) {
        Some(Seq::new(4, |i: int| decimal_value(parts[i]) as u8))
    } else {
        None
    }
}

/// The dotted form of four octets.
pub open spec fn ipv4_text(octets: Seq<u8>) -> Seq<char> {
    decimal_text(octets[0] as nat) + seq!['.'] + decimal_text(octets[1] as nat) + seq!['.']
        + decimal_text(octets[2] as nat) + seq!['.'] + decimal_text(octets[3] as nat)
}

/// Reads a decimal octet.
pub fn parse_octet(part: &Vec<char>) -> (octet: Option<u8>)
    ensures
        octet == octet_of_text(part@),
{
    let n: usize = part.len();
    if n < 1 || n > 3 {
        return None;
    }
    let mut value: u16 = 0;
    let mut i: usize = 0;
    while i < n
        invariant
            i <= n == part.len(),
            n <= 3,
            all_decimal(part@.take(i as int)),
            value == decimal_value(part@.take(i as int)),
            i == 0 ==> value == 0,
            i == 1 ==> value <= 9,
            i == 2 ==> value <= 99,
            i == 3 ==> value <= 999,
        decreases n - i,
    {
        let c = part[i];
        if !(c >= '0' && c <= '9') {
            proof {
                assert(!is_decimal_digit(part@[i as int]));
            }
            return None;
        }
        proof {
            let next = part@.take(i + 1);
            assert(next.drop_last() == part@.take(i as int));
            assert(next.last() == c);
        }
        value = value * 10 + (c as u16 - '0' as u16);
        i += 1;
    }
    assert(part@.take(n as int) == part@);
    if n > 1 && part[0] == '0' {
        return None;
    }
    if value > 255 {
        return None;
    }
    Some(value as u8)
}

/// Reads an IPv4 address in dotted form.
pub fn parse_ipv4(text: &Vec<char>) -> (octets: Option<[u8; 4]>)
    ensures
        match octets {
            Some(o) => ipv4_of_text(text@) == Some(o@),
            None => ipv4_of_text(text@) is None,
        },
{
    let parts = split_fields(text, 0, text.len(), '.');
    assert(text@.subrange(0, text.len() as int) == text@);
    if parts.len() != 4 {
        return None;
    }
    let ghost texts = fields(text@, '.');
    let mut octets: [u8; 4] = [0; 4];
    let mut i: usize = 0;
    while i < 4
        invariant
            i <= 4,
            parts.len() == 4,
            views(parts@) == texts,
            texts == fields(text@, '.'),
            forall|j: int| 0 <= j < i ==> is_octet_text(#[trigger] texts[j]),
            forall|j: int| 0 <= j < i ==> octets@[j] == decimal_value(texts[j]) as u8,
        decreases 4 - i,
    {
        assert(texts[i as int] == parts@[i as int]@);
        match parse_octet(&parts[i]) {
            Some(octet) => {
                octets[i] = octet;
            },
            None => {
                assert(!is_octet_text(texts[i as int]));
                return None;
            },
        }
        i += 1;
    }
    assert(octets@ =~= Seq::new(4, |i: int| decimal_value(texts[i]) as u8));
    Some(octets)
}

/// Appends the dotted form of four octets to `text`.
pub fn append_ipv4(text: &mut String, octets: &[u8; 4])
    ensures
        final(text)@ == old(text)@ + ipv4_text(octets@),
{
    append_decimal(text, octets[0] as u16);
    text.append(".");
    append_decimal(text, octets[1] as u16);
    text.append(".");
    append_decimal(text, octets[2] as u16);
    text.append(".");
    append_decimal(text, octets[3] as u16);
    proof {
        reveal_strlit(".");
        assert("."@ =~= seq!['.']);
        assert(text@ =~= old(text)@ + ipv4_text(octets@));
    }
}


/// The numeral of an octet is a decimal octet.
pub proof fn lemma_octet_text(octet: u8)
    ensures
        is_octet_text(decimal_text(octet as nat)),
        decimal_value(decimal_text(octet as nat)) == octet,
{
    lemma_decimal_text(octet as nat);
}

/// The dotted form of four octets has their numerals as its fields, and
/// holds a dot but no colon.
pub proof fn lemma_ipv4_text_fields(octets: Seq<u8>)
    requires
        octets.len() == 4,
    ensures
        fields(ipv4_text(octets), '.') == seq![
            decimal_text(octets[0] as nat),
            decimal_text(octets[1] as nat),
            decimal_text(octets[2] as nat),
            decimal_text(octets[3] as nat),
        ],
        !ipv4_text(octets).contains(':'),
        ipv4_text(octets).contains('.'),
{
    let d0 = decimal_text(octets[0] as nat);
    let d1 = decimal_text(octets[1] as nat);
    let d2 = decimal_text(octets[2] as nat);
    let d3 = decimal_text(octets[3] as nat);
    lemma_decimal_text_plain(octets[0] as nat);
    lemma_decimal_text_plain(octets[1] as nat);
    lemma_decimal_text_plain(octets[2] as nat);
    lemma_decimal_text_plain(octets[3] as nat);
    lemma_fields_single(d0, '.');
    lemma_fields_append(d0, d1, '.');
    lemma_fields_append(d0 + seq!['.'] + d1, d2, '.');
    lemma_fields_append(d0 + seq!['.'] + d1 + seq!['.'] + d2, d3, '.');
    assert(seq![d0].push(d1).push(d2).push(d3) == seq![d0, d1, d2, d3]);
    let text = ipv4_text(octets);
    if text.contains(':') {
        let i = choose|i: int| 0 <= i < text.len() && text[i] == ':';
        let a = d0.len() as int;
        let b = a + 1 + d1.len();
        let c = b + 1 + d2.len();
        if i < a {
            assert(d0[i] == ':');
        } else if i == a {
        } else if i < b {
            assert(d1[i - a - 1] == ':');
        } else if i == b {
        } else if i < c {
            assert(d2[i - b - 1] == ':');
        } else if i == c {
        } else {
            assert(d3[i - c - 1] == ':');
        }
    }
    assert(text[d0.len() as int] == '.');
}

/// The dotted form of an IPv4 address is read back as that address.
pub proof fn lemma_ipv4_round_trip(octets: Seq<u8>)
    requires
        octets.len() == 4,
    ensures
        ipv4_of_text(ipv4_text(octets)) == Some(octets),
{
    lemma_ipv4_text_fields(octets);
    lemma_octet_text(octets[0]);
    lemma_octet_text(octets[1]);
    lemma_octet_text(octets[2]);
    lemma_octet_text(octets[3]);
    let parts = fields(ipv4_text(octets), '.');
    assert(Seq::new(4, |i: int| decimal_value(parts[i]) as u8) =~= octets);
}

/// The dotted form of an IPv4 address can stand as a host.
pub proof fn lemma_ipv4_text_host_chars(octets: Seq<u8>)
    requires
        octets.len() == 4,
    ensures
        all_host_chars(ipv4_text(octets)),
{
    let dot = seq!['.'];
    let d0 = decimal_text(octets[0] as nat);
    let d1 = decimal_text(octets[1] as nat);
    let d2 = decimal_text(octets[2] as nat);
    let d3 = decimal_text(octets[3] as nat);
    lemma_decimal_text(octets[0] as nat);
    lemma_decimal_text(octets[1] as nat);
    lemma_decimal_text(octets[2] as nat);
    lemma_decimal_text(octets[3] as nat);
    lemma_digits_are_host_chars(d0);
    lemma_digits_are_host_chars(d1);
    lemma_digits_are_host_chars(d2);
    lemma_digits_are_host_chars(d3);
    assert(all_host_chars(dot));
    lemma_host_chars_concat(d0, dot);
    lemma_host_chars_concat(d0 + dot, d1);
    lemma_host_chars_concat(d0 + dot + d1, dot);
    lemma_host_chars_concat(d0 + dot + d1 + dot, d2);
    lemma_host_chars_concat(d0 + dot + d1 + dot + d2, dot);
    lemma_host_chars_concat(d0 + dot + d1 + dot + d2 + dot, d3);
}

/// A text with a colon in it is not the dotted form of an IPv4 address.
pub proof fn lemma_colon_not_ipv4(s: Seq<char>)
    requires
        s.contains(':'),
    ensures
        ipv4_of_text(s) is None,
{
    let parts = fields(s, '.');
    lemma_fields_cover(s, '.', ':');
    let k = choose|k: int| 0 <= k < parts.len() && (#[trigger] parts[k]).contains(':');
    let j = choose|j: int| 0 <= j < parts[k].len() && parts[k][j] == ':';
    assert(!is_decimal_digit(parts[k][j]));
    assert(!is_octet_text(parts[k]));
}

} // verus!
