//! The standard text of an IPv6 address is read back as that address.

use crate::authority::{all_host_chars, lemma_digits_are_host_chars, lemma_host_chars_concat};
use crate::ipv4::{
    ipv4_text, lemma_ipv4_round_trip, lemma_ipv4_text_fields, lemma_ipv4_text_host_chars,
};
use crate::ipv6::{
    all_groups, double_colon_at, embedded_groups, embedded_octets, group_values, groups_of_text,
    groups_text, ipv6_of_text, ipv6_text, is_first_double_colon, is_hex_group, is_ipv4_mapped,
    is_longest_zero_run, lemma_first_double_colon_unique, zero_groups, zero_run,
};
use crate::text::{
    fields, hex_text, hex_value, is_hex_digit, lemma_fields_append, lemma_fields_single,
    lemma_hex_text, lemma_hex_text_plain,
};
use vstd::prelude::*;

verus! {

/// The hexadecimal numerals of `groups`, one text for each group.
pub open spec fn group_texts(groups: Seq<u16>) -> Seq<Seq<char>> {
    Seq::new(groups.len(), |i: int| hex_text(groups[i] as nat))
}

/// The text of a list of groups has their numerals as its fields.
pub proof fn lemma_groups_text_fields(groups: Seq<u16>)
    requires
        groups.len() >= 1,
    ensures
        fields(groups_text(groups), ':') == group_texts(groups),
    decreases groups.len(),
{
    lemma_hex_text_plain(groups.last() as nat);
    if groups.len() == 1 {
        lemma_fields_single(hex_text(groups[0] as nat), ':');
        assert(group_texts(groups) == seq![hex_text(groups[0] as nat)]);
    } else {
        let front = groups.drop_last();
        lemma_groups_text_fields(front);
        lemma_fields_append(groups_text(front), hex_text(groups.last() as nat), ':');
        assert(group_texts(groups) == group_texts(front).push(hex_text(groups.last() as nat)));
    }
}

/// The text of a non-empty list of groups neither begins nor ends with
/// a colon, and has no `::`.
pub proof fn lemma_groups_text_shape(groups: Seq<u16>)
    requires
        groups.len() >= 1,
    ensures
        groups_text(groups).len() >= 1,
        groups_text(groups)[0] != ':',
        groups_text(groups).last() != ':',
        forall|j: int| !double_colon_at(groups_text(groups), j),
    decreases groups.len(),
{
    let last = hex_text(groups.last() as nat);
    lemma_hex_text(groups.last() as nat);
    assert(is_hex_digit(last[0]));
    assert(is_hex_digit(last[last.len() - 1]));
    let text = groups_text(groups);
    if groups.len() == 1 {
        assert forall|j: int| !double_colon_at(text, j) by {
            if double_colon_at(text, j) {
                assert(is_hex_digit(text[j]));
            }
        }
    } else {
        let front = groups_text(groups.drop_last());
        lemma_groups_text_shape(groups.drop_last());
        let n = front.len() as int;
        assert(text[0] == front[0]);
        assert(text.last() == last[last.len() - 1]);
        assert forall|j: int| !double_colon_at(text, j) by {
            if double_colon_at(text, j) {
                if j + 1 < n {
                    assert(text[j] == front[j]);
                    assert(text[j + 1] == front[j + 1]);
                    assert(double_colon_at(front, j));
                } else if j + 1 == n {
                    assert(text[j] == front[n - 1]);
                } else if j == n {
                    assert(text[j + 1] == last[0]);
                } else {
                    assert(text[j] == last[j - n - 1]);
                    assert(is_hex_digit(last[j - n - 1]));
                }
            }
        }
    }
}

/// The text of a list of groups is read back as that list.
pub proof fn lemma_groups_round_trip(groups: Seq<u16>, with_ipv4: bool)
    ensures
        groups_of_text(groups_text(groups), with_ipv4) == Some(groups),
{
    if groups.len() == 0 {
        assert(groups =~= Seq::<u16>::empty());
    } else {
        lemma_groups_text_fields(groups);
        lemma_groups_text_shape(groups);
        let parts = group_texts(groups);
        assert forall|i: int| 0 <= i < parts.len() implies is_hex_group(#[trigger] parts[i])
            && hex_value(parts[i]) == groups[i] by {
            lemma_hex_text(groups[i] as nat);
        }
        assert(all_groups(parts));
        assert(group_values(parts) =~= groups);
    }
}

/// A run of zero groups stays within the list, and its groups are zero.
pub proof fn lemma_zero_run(groups: Seq<u16>, i: int)
    requires
        0 <= i <= groups.len(),
    ensures
        i + zero_run(groups, i) <= groups.len(),
        forall|j: int| i <= j < i + zero_run(groups, i) ==> groups[j] == 0,
    decreases groups.len() - i,
{
    if i < groups.len() && groups[i] == 0 {
        lemma_zero_run(groups, i + 1);
    }
}

/// The value of the numeral `ffff`.
proof fn lemma_ffff()
    ensures
        is_hex_group(seq!['f', 'f', 'f', 'f']),
        hex_value(seq!['f', 'f', 'f', 'f']) == 0xffff,
        !seq!['f', 'f', 'f', 'f'].contains(':'),
{
    let s4 = seq!['f', 'f', 'f', 'f'];
    let s3 = seq!['f', 'f', 'f'];
    let s2 = seq!['f', 'f'];
    let s1 = seq!['f'];
    assert(s4.drop_last() == s3);
    assert(s3.drop_last() == s2);
    assert(s2.drop_last() == s1);
    assert(s1.drop_last() == Seq::<char>::empty());
    assert(hex_value(s1) == 15) by {
        assert(hex_value(s1.drop_last()) == 0);
    }
    assert(hex_value(s2) == 255);
    assert(hex_value(s3) == 4095);
}

/// The text of an IPv4-mapped address is read back as that address.
proof fn lemma_mapped_round_trip(groups: Seq<u16>)
    requires
        groups.len() == 8,
        is_ipv4_mapped(groups),
    ensures
        ipv6_of_text(ipv6_text(groups)) == Some(groups),
{
    let octets = embedded_octets(groups);
    let dotted = ipv4_text(octets);
    let ffff = seq!['f', 'f', 'f', 'f'];
    let text = ipv6_text(groups);
    assert(text == seq![':', ':', 'f', 'f', 'f', 'f', ':'] + dotted);
    lemma_ffff();
    lemma_ipv4_text_fields(octets);
    lemma_ipv4_round_trip(octets);
    assert(is_first_double_colon(text, 0));
    let k = choose|k: int| is_first_double_colon(text, k);
    lemma_first_double_colon_unique(text, k, 0);
    assert(text.take(0) =~= Seq::<char>::empty());
    let rest = text.skip(2);
    assert(rest =~= ffff + seq![':'] + dotted);
    lemma_fields_single(ffff, ':');
    lemma_fields_append(ffff, dotted, ':');
    let parts = fields(rest, ':');
    assert(parts == seq![ffff, dotted]);
    assert(!all_groups(parts)) by {
        let i = choose|i: int| 0 <= i < dotted.len() && dotted[i] == '.';
        assert(!is_hex_digit(dotted[i]));
        assert(!is_hex_group(parts[1]));
    }
    assert(parts.drop_last() == seq![ffff]);
    assert(parts.last() == dotted);
    assert(all_groups(parts.drop_last()));
    assert(group_values(parts.drop_last()) == seq![0xffffu16]);
    let tail = seq![0xffffu16] + embedded_groups(octets);
    assert(groups_of_text(rest, true) == Some(tail));
    assert(groups_of_text(text.take(0), false) == Some(Seq::<u16>::empty()));
    assert(Seq::<u16>::empty() + zero_groups(5) + tail =~= groups);
}

/// The text of an address with `::` in it is read back as that address.
proof fn lemma_compressed_round_trip(groups: Seq<u16>, start: int, len: nat)
    requires
        groups.len() == 8,
        len >= 2,
        is_longest_zero_run(groups, start, len),
    ensures
        ipv6_of_text(
            groups_text(groups.take(start)) + seq![':', ':'] + groups_text(
                groups.skip(start + len),
            ),
        ) == Some(groups),
{
    lemma_zero_run(groups, start);
    let head = groups.take(start);
    let tail = groups.skip(start + len);
    let before = groups_text(head);
    let after = groups_text(tail);
    let text = before + seq![':', ':'] + after;
    let n = before.len() as int;
    if head.len() >= 1 {
        lemma_groups_text_shape(head);
    }
    assert(is_first_double_colon(text, n)) by {
        assert(text[n] == ':');
        assert(text[n + 1] == ':');
        assert forall|j: int| 0 <= j < n implies !double_colon_at(text, j) by {
            if double_colon_at(text, j) {
                if j + 1 < n {
                    assert(text[j] == before[j]);
                    assert(text[j + 1] == before[j + 1]);
                    assert(double_colon_at(before, j));
                } else {
                    assert(text[j] == before[n - 1]);
                }
            }
        }
    }
    let k = choose|k: int| is_first_double_colon(text, k);
    lemma_first_double_colon_unique(text, k, n);
    assert(text.take(n) =~= before);
    assert(text.skip(n + 2) =~= after);
    lemma_groups_round_trip(head, false);
    lemma_groups_round_trip(tail, true);
    assert(head + zero_groups((8 - head.len() - tail.len()) as nat) + tail =~= groups);
}

/// The standard text of an IPv6 address is read back as that address.
pub proof fn lemma_ipv6_round_trip(groups: Seq<u16>)
    requires
        groups.len() == 8,
    ensures
        ipv6_of_text(ipv6_text(groups)) == Some(groups),
{
    if is_ipv4_mapped(groups) {
        lemma_mapped_round_trip(groups);
    } else if exists|start: int, len: nat| len >= 2 && is_longest_zero_run(groups, start, len) {
        let (start, len) = choose|start: int, len: nat|
            len >= 2 && is_longest_zero_run(groups, start, len);
        lemma_compressed_round_trip(groups, start, len);
    } else {
        lemma_groups_text_shape(groups);
        lemma_groups_round_trip(groups, true);
    }
}

/// The standard text of an IPv6 address has a colon in it.
pub proof fn lemma_ipv6_text_has_colon(groups: Seq<u16>)
    requires
        groups.len() == 8,
    ensures
        ipv6_text(groups).contains(':'),
{
    let text = ipv6_text(groups);
    if is_ipv4_mapped(groups) {
        assert(text[0] == ':');
    } else if exists|start: int, len: nat| len >= 2 && is_longest_zero_run(groups, start, len) {
        let (start, len) = choose|start: int, len: nat|
            len >= 2 && is_longest_zero_run(groups, start, len);
        let n = groups_text(groups.take(start)).len() as int;
        assert(text[n] == ':');
    } else {
        let n = groups_text(groups.drop_last()).len() as int;
        assert(text[n] == ':');
    }
}

/// The text of a list of groups can stand as a host.
pub proof fn lemma_groups_text_host_chars(groups: Seq<u16>)
    ensures
        all_host_chars(groups_text(groups)),
    decreases groups.len(),
{
    if groups.len() >= 1 {
        let last = hex_text(groups.last() as nat);
        lemma_hex_text(groups.last() as nat);
        lemma_digits_are_host_chars(last);
        if groups.len() > 1 {
            let front = groups_text(groups.drop_last());
            lemma_groups_text_host_chars(groups.drop_last());
            assert(all_host_chars(seq![':']));
            lemma_host_chars_concat(front, seq![':']);
            lemma_host_chars_concat(front + seq![':'], last);
        }
    }
}

/// The standard text of an IPv6 address can stand as a host.
pub proof fn lemma_ipv6_text_host_chars(groups: Seq<u16>)
    requires
        groups.len() == 8,
    ensures
        all_host_chars(ipv6_text(groups)),
{
    if is_ipv4_mapped(groups) {
        let prefix = seq![':', ':', 'f', 'f', 'f', 'f', ':'];
        assert(all_host_chars(prefix));
        lemma_ipv4_text_host_chars(embedded_octets(groups));
        lemma_host_chars_concat(prefix, ipv4_text(embedded_octets(groups)));
    } else if exists|start: int, len: nat| len >= 2 && is_longest_zero_run(groups, start, len) {
        let (start, len) = choose|start: int, len: nat|
            len >= 2 && is_longest_zero_run(groups, start, len);
        let before = groups_text(groups.take(start));
        let after = groups_text(groups.skip(start + len));
        lemma_groups_text_host_chars(groups.take(start));
        lemma_groups_text_host_chars(groups.skip(start + len));
        assert(all_host_chars(seq![':', ':']));
        lemma_host_chars_concat(before, seq![':', ':']);
        lemma_host_chars_concat(before + seq![':', ':'], after);
    } else {
        lemma_groups_text_host_chars(groups);
    }
}

} // verus!
