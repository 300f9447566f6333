//! IPv6 addresses in text: eight hexadecimal groups separated by
//! colons, where one `::` may stand for a run of zero groups and the
//! last two groups may be written as an IPv4 address in dotted form.

use crate::ipv4::{append_ipv4, ipv4_of_text, ipv4_text, parse_ipv4};
use crate::text::{
    all_hex, append_hex, fields, hex_text, hex_value, is_hex_digit, split_fields, views,
};
use vstd::prelude::*;

verus! {

/// `t` is a hexadecimal group: one to four hexadecimal digits.
pub open spec fn is_hex_group(t: Seq<char>) -> bool {
    1 <= t.len() <= 4 && all_hex(t)
}

/// The group that `t` writes, if it is a hexadecimal group.
pub open spec fn group_of_text(t: Seq<char>) -> Option<u16> {
    if is_hex_group(t) {
        Some(hex_value(t) as u16)
    } else {
        None
    }
}

/// Every text of `parts` is a hexadecimal group.
pub open spec fn all_groups(parts: Seq<Seq<char>>) -> bool {
    forall|i: int| 0 <= i < parts.len() ==> is_hex_group(#[trigger] parts[i])
}

/// The groups that the texts of `parts` write.
pub open spec fn group_values(parts: Seq<Seq<char>>) -> Seq<u16> {
    Seq::new(parts.len(), |i: int| hex_value(parts[i]) as u16)
}

/// The two groups that hold the four octets of an IPv4 address.
pub open spec fn embedded_groups(octets: Seq<u8>) -> Seq<u16> {
    seq![(octets[0] * 256 + octets[1]) as u16, (octets[2] * 256 + octets[3]) as u16]
}

/// The four octets held by the last two of eight groups.
pub open spec fn embedded_octets(groups: Seq<u16>) -> Seq<u8> {
    seq![
        (groups[6] / 256) as u8,
        (groups[6] % 256) as u8,
        (groups[7] / 256) as u8,
        (groups[7] % 256) as u8,
    ]
}

/// The groups written by `t`, a possibly empty list of hexadecimal groups
/// separated by colons. With `with_ipv4`, the list may end in an IPv4
/// address in dotted form, which counts as two groups.
pub open spec fn groups_of_text(t: Seq<char>, with_ipv4: bool) -> Option<Seq<u16>> {
    let parts = fields(t, ':');
    if t.len() == 0 {
        Some(Seq::empty())
    } else if all_groups(parts) {
        Some(group_values(parts))
    } else if with_ipv4 && all_groups(parts.drop_last()) && ipv4_of_text(parts.last()) is Some {
        Some(group_values(parts.drop_last()) + embedded_groups(ipv4_of_text(parts.last())->0))
    } else {
        None
    }
}

/// `s` has `::` at index `k`.
pub open spec fn double_colon_at(s: Seq<char>, k: int) -> bool {
    0 <= k && k + 1 < s.len() && s[k] == ':' && s[k + 1] == ':'
}

/// The leftmost `::` of `s` is at index `k`.
pub open spec fn is_first_double_colon(s: Seq<char>, k: int) -> bool {
    double_colon_at(s, k) && forall|j: int| 0 <= j < k ==> !double_colon_at(s, j)
}

/// `n` zero groups.
pub open spec fn zero_groups(n: nat) -> Seq<u16> {
    Seq::new(n, |i: int| 0u16)
}

/// The IPv6 address that `s` writes. Without `::`, `s` lists all eight
/// groups. With `::`, the groups before and after it are at most seven,
/// and zero groups fill the gap. An IPv4 address in dotted form may take
/// the place of the last two groups, but not before a `::`.
pub open spec fn ipv6_of_text(s: Seq<char>) -> Option<Seq<u16>> {
    if exists|k: int| is_first_double_colon(s, k) {
        let k = choose|k: int| is_first_double_colon(s, k);
        match (groups_of_text(s.take(k), false), groups_of_text(s.skip(k + 2), true)) {
            (Some(head), Some(tail)) => if head.len() + tail.len() <= 7 {
                Some(head + zero_groups((8 - head.len() - tail.len()) as nat) + tail)
            } else {
                None
            },
            _ => None,
        }
    } else {
        match groups_of_text(s, true) {
            Some(groups) => if groups.len() == 8 {
                Some(groups)
            } else {
                None
            },
            None => None,
        }
    }
}

/// The hexadecimal numerals of `groups`, separated by colons.
pub open spec fn groups_text(groups: Seq<u16>) -> Seq<char>
    decreases groups.len(),
{
    if groups.len() == 0 {
        Seq::empty()
    } else if groups.len() == 1 {
        hex_text(groups[0] as nat)
    } else {
        groups_text(groups.drop_last()) + seq![':'] + hex_text(groups.last() as nat)
    }
}

/// The number of consecutive zero groups from index `i` on.
pub open spec fn zero_run(groups: Seq<u16>, i: int) -> nat
    decreases groups.len() - i,
{
    if 0 <= i < groups.len() && groups[i] == 0 {
        1 + zero_run(groups, i + 1)
    } else {
        0
    }
}

/// The run of `len` zero groups from `start` is the longest of
/// `groups`, and the leftmost of that length.
pub open spec fn is_longest_zero_run(groups: Seq<u16>, start: int, len: nat) -> bool {
    &&& 0 <= start < groups.len()
    &&& zero_run(groups, start) == len
    &&& forall|j: int| 0 <= j < groups.len() ==> #[trigger] zero_run(groups, j) <= len
    &&& forall|j: int| 0 <= j < start ==> #[trigger] zero_run(groups, j) < len
}

/// The address is an IPv4 address mapped into IPv6: `::ffff:a.b.c.d`.
pub open spec fn is_ipv4_mapped(groups: Seq<u16>) -> bool {
    &&& groups[0] == 0
    &&& groups[1] == 0
    &&& groups[2] == 0
    &&& groups[3] == 0
    &&& groups[4] == 0
    &&& groups[5] == 0xffff
}

/// The standard text of eight groups. An IPv4-mapped address shows its
/// last two groups in dotted form. Otherwise the leftmost longest run of
/// two or more zero groups is written as `::`, and the groups are in
/// lower-case hexadecimal without leading zeros.
pub open spec fn ipv6_text(groups: Seq<u16>) -> Seq<char> {
    if is_ipv4_mapped(groups) {
        seq![':', ':', 'f', 'f', 'f', 'f', ':'] + ipv4_text(embedded_octets(groups))
    } else if exists|start: int, len: nat| len >= 2 && is_longest_zero_run(groups, start, len) {
        let (start, len) = choose|start: int, len: nat|
            len >= 2 && is_longest_zero_run(groups, start, len);
        groups_text(groups.take(start)) + seq![':', ':'] + groups_text(groups.skip(start + len))
    } else {
        groups_text(groups)
    }
}

/// Reads a hexadecimal group.
pub fn parse_group(part: &Vec<char>) -> (group: Option<u16>)
    ensures
        group == group_of_text(part@),
{
    let n: usize = part.len();
    if n < 1 || n > 4 {
        return None;
    }
    let mut value: u32 = 0;
    let mut i: usize = 0;
    while i < n
        invariant
            i <= n == part.len(),
            n <= 4,
            all_hex(part@.take(i as int)),
            value == hex_value(part@.take(i as int)),
            i == 0 ==> value == 0,
            i == 1 ==> value < 0x10,
            i == 2 ==> value < 0x100,
            i == 3 ==> value < 0x1000,
            i == 4 ==> value < 0x10000,
        decreases n - i,
    {
        let c = part[i];
        let digit: u32 = if c >= '0' && c <= '9' {
            c as u32 - '0' as u32
        } else if c >= 'a' && c <= 'f' {
            c as u32 - 'a' as u32 + 10
        } else if c >= 'A' && c <= 'F' {
            c as u32 - 'A' as u32 + 10
        } else {
            proof {
                assert(!is_hex_digit(part@[i as int]));
            }
            return None;
        };
        proof {
            let next = part@.take(i + 1);
            assert(next.drop_last() == part@.take(i as int));
            assert(next.last() == c);
        }
        value = value * 16 + digit;
        i += 1;
    }
    assert(part@.take(n as int) == part@);
    Some(value as u16)
}

/// Reads a list of hexadecimal groups separated by colons from
/// `chars[from..to]`, with an IPv4 address in the last place if
/// `with_ipv4` allows it.
pub fn parse_groups(chars: &Vec<char>, from: usize, to: usize, with_ipv4: bool) -> (groups: Option<
    Vec<u16>,
>)
    requires
        from <= to <= chars.len(),
    ensures
        match groups {
            Some(g) => groups_of_text(chars@.subrange(from as int, to as int), with_ipv4) == Some(
                g@,
            ),
            None => groups_of_text(chars@.subrange(from as int, to as int), with_ipv4) is None,
        },
{
    let mut groups: Vec<u16> = Vec::new();
    if from == to {
        return Some(groups);
    }
    let parts = split_fields(chars, from, to, ':');
    let ghost texts = fields(chars@.subrange(from as int, to as int), ':');
    let n: usize = parts.len();
    assert(chars@.subrange(from as int, to as int).len() > 0);
    assert(texts.len() == n);
    let mut i: usize = 0;
    while i < n
        invariant
            i <= n == parts.len(),
            from < to <= chars.len(),
            views(parts@) == texts,
            texts == fields(chars@.subrange(from as int, to as int), ':'),
            texts.len() == n,
            groups.len() == i,
            forall|j: int| 0 <= j < i ==> is_hex_group(#[trigger] texts[j]),
            forall|j: int| 0 <= j < i ==> groups@[j] == hex_value(texts[j]) as u16,
        decreases n - i,
    {
        assert(texts[i as int] == parts@[i as int]@);
        match parse_group(&parts[i]) {
            Some(group) => {
                groups.push(group);
            },
            None => {
                assert(!all_groups(texts));
                if with_ipv4 && i + 1 == n {
                    assert(texts.last() == texts[i as int]);
                    match parse_ipv4(&parts[i]) {
                        Some(octets) => {
                            assert(all_groups(texts.drop_last())) by {
                                assert forall|j: int| 0 <= j < texts.drop_last().len() implies is_hex_group(
                                    #[trigger] texts.drop_last()[j],
                                ) by {
                                    assert(texts.drop_last()[j] == texts[j]);
                                }
                            }
                            groups.push(octets[0] as u16 * 256 + octets[1] as u16);
                            groups.push(octets[2] as u16 * 256 + octets[3] as u16);
                            assert(groups@ =~= group_values(texts.drop_last()) + embedded_groups(
                                octets@,
                            ));
                            return Some(groups);
                        },
                        None => {
                            return None;
                        },
                    }
                }
                assert(with_ipv4 ==> !all_groups(texts.drop_last())) by {
                    if i + 1 < n {
                        assert(texts.drop_last()[i as int] == texts[i as int]);
                    }
                }
                return None;
            },
        }
        i += 1;
    }
    assert(groups@ =~= group_values(texts));
    Some(groups)
}

/// Finds the leftmost `::`.
pub fn find_double_colon(text: &Vec<char>) -> (at: Option<usize>)
    ensures
        match at {
            Some(k) => is_first_double_colon(text@, k as int),
            None => forall|k: int| !double_colon_at(text@, k),
        },
{
    let n: usize = text.len();
    let mut k: usize = 0;
    while k < n && n - k >= 2
        invariant
            k <= n == text.len(),
            forall|j: int| 0 <= j < k ==> !double_colon_at(text@, j),
        decreases n - k,
    {
        if text[k] == ':' && text[k + 1] == ':' {
            return Some(k);
        }
        k += 1;
    }
    None
}

/// The leftmost `::` is at one index only.
pub proof fn lemma_first_double_colon_unique(s: Seq<char>, j: int, k: int)
    requires
        is_first_double_colon(s, j),
        is_first_double_colon(s, k),
    ensures
        j == k,
{
}

/// Reads an IPv6 address.
pub fn parse_ipv6(text: &Vec<char>) -> (groups: Option<[u16; 8]>)
    ensures
        match groups {
            Some(g) => ipv6_of_text(text@) == Some(g@),
            None => ipv6_of_text(text@) is None,
        },
{
    let n: usize = text.len();
    let mut groups: [u16; 8] = [0; 8];
    match find_double_colon(text) {
        None => {
            assert(text@.subrange(0, n as int) == text@);
            match parse_groups(text, 0, n, true) {
                Some(all) => {
                    if all.len() != 8 {
                        return None;
                    }
                    let mut i: usize = 0;
                    while i < 8
                        invariant
                            i <= 8 == all.len(),
                            forall|j: int| 0 <= j < i ==> groups@[j] == all@[j],
                        decreases 8 - i,
                    {
                        groups[i] = all[i];
                        i += 1;
                    }
                    assert(groups@ =~= all@);
                    Some(groups)
                },
                None => None,
            }
        },
        Some(k) => {
            proof {
                let chosen = choose|j: int| is_first_double_colon(text@, j);
                lemma_first_double_colon_unique(text@, chosen, k as int);
                assert(text@.subrange(0, k as int) == text@.take(k as int));
                assert(text@.subrange(k + 2, n as int) == text@.skip(k + 2));
            }
            let head = match parse_groups(text, 0, k, false) {
                Some(head) => head,
                None => {
                    return None;
                },
            };
            let tail = match parse_groups(text, k + 2, n, true) {
                Some(tail) => tail,
                None => {
                    return None;
                },
            };
            let h: usize = head.len();
            let t: usize = tail.len();
            if h > 7 || t > 7 - h {
                return None;
            }
            let mut i: usize = 0;
            while i < h
                invariant
                    i <= h == head.len(),
                    h <= 7,
                    forall|j: int| 0 <= j < i ==> groups@[j] == head@[j],
                    forall|j: int| i <= j < 8 ==> groups@[j] == 0,
                decreases h - i,
            {
                groups[i] = head[i];
                i += 1;
            }
            let mut i: usize = 0;
            while i < t
                invariant
                    i <= t == tail.len(),
                    h == head.len(),
                    h + t <= 7,
                    forall|j: int| 0 <= j < h ==> groups@[j] == head@[j],
                    forall|j: int| h <= j < 8 - t ==> groups@[j] == 0,
                    forall|j: int| 0 <= j < i ==> groups@[8 - t + j] == tail@[j],
                decreases t - i,
            {
                groups[8 - t + i] = tail[i];
                i += 1;
            }
            assert(groups@ =~= head@ + zero_groups((8 - h - t) as nat) + tail@);
            Some(groups)
        },
    }
}

/// The longest run of zero groups is at one place only.
pub proof fn lemma_longest_zero_run_unique(
    groups: Seq<u16>,
    start: int,
    len: nat,
    other_start: int,
    other_len: nat,
)
    requires
        len >= 1,
        is_longest_zero_run(groups, start, len),
        is_longest_zero_run(groups, other_start, other_len),
    ensures
        start == other_start,
        len == other_len,
{
    assert(zero_run(groups, start) <= other_len);
    assert(zero_run(groups, other_start) <= len);
}

/// Finds the leftmost longest run of zero groups: its start and its
/// length, which is zero when no group is zero.
pub fn longest_zero_run(groups: &[u16; 8]) -> (run: (usize, usize))
    ensures
        run.0 + run.1 <= 8,
        run.1 >= 1 ==> is_longest_zero_run(groups@, run.0 as int, run.1 as nat),
        run.1 == 0 ==> run.0 == 0 && forall|j: int|
            0 <= j < 8 ==> #[trigger] zero_run(groups@, j) == 0,
{
    let mut start: usize = 0;
    let mut len: usize = 0;
    let mut k: usize = 0;
    while k < 8
        invariant
            k <= 8,
            start + len <= 8,
            len == 0 ==> start == 0,
            forall|j: int| 0 <= j < k ==> #[trigger] zero_run(groups@, j) <= len,
            len >= 1 ==> start < k && zero_run(groups@, start as int) == len,
            len >= 1 ==> forall|j: int| 0 <= j < start ==> #[trigger] zero_run(groups@, j) < len,
        decreases 8 - k,
    {
        let mut run: usize = 0;
        while k + run < 8 && groups[k + run] == 0
            invariant
                k + run <= 8,
                zero_run(groups@, k as int) == run + zero_run(groups@, k + run),
            decreases 8 - k - run,
        {
            run += 1;
        }
        if run > len {
            start = k;
            len = run;
        }
        k += 1;
    }
    (start, len)
}

/// Appends the hexadecimal numerals of `groups[from..to]`, separated by
/// colons.
pub fn append_groups(text: &mut String, groups: &[u16; 8], from: usize, to: usize)
    requires
        from <= to <= 8,
    ensures
        final(text)@ == old(text)@ + groups_text(groups@.subrange(from as int, to as int)),
{
    let mut i: usize = from;
    while i < to
        invariant
            from <= i <= to <= 8,
            text@ == old(text)@ + groups_text(groups@.subrange(from as int, i as int)),
        decreases to - i,
    {
        if i > from {
            text.append(":");
        }
        append_hex(text, groups[i]);
        proof {
            reveal_strlit(":");
            assert(":"@ =~= seq![':']);
            let done = groups@.subrange(from as int, i as int);
            let next = groups@.subrange(from as int, i + 1);
            assert(next.drop_last() == done);
            assert(next.last() == groups@[i as int]);
            assert(text@ =~= old(text)@ + groups_text(next));
        }
        i += 1;
    }
}

/// Appends the standard text of an IPv6 address.
pub fn append_ipv6(text: &mut String, groups: &[u16; 8])
    ensures
        final(text)@ == old(text)@ + ipv6_text(groups@),
{
    if groups[0] == 0 && groups[1] == 0 && groups[2] == 0 && groups[3] == 0 && groups[4] == 0
        && groups[5] == 0xffff {
        let octets: [u8; 4] = [
            (groups[6] / 256) as u8,
            (groups[6] % 256) as u8,
            (groups[7] / 256) as u8,
            (groups[7] % 256) as u8,
        ];
        text.append("::ffff:");
        append_ipv4(text, &octets);
        proof {
            reveal_strlit("::ffff:");
            assert("::ffff:"@ =~= seq![':', ':', 'f', 'f', 'f', 'f', ':']);
            assert(octets@ =~= embedded_octets(groups@));
            assert(text@ =~= old(text)@ + ipv6_text(groups@));
        }
        return ;
    }
    let (start, len) = longest_zero_run(groups);
    if len >= 2 {
        append_groups(text, groups, 0, start);
        text.append("::");
        append_groups(text, groups, start + len, 8);
        proof {
            reveal_strlit("::");
            assert("::"@ =~= seq![':', ':']);
            let (s, l) = choose|s: int, l: nat| l >= 2 && is_longest_zero_run(groups@, s, l);
            lemma_longest_zero_run_unique(groups@, start as int, len as nat, s, l);
            assert(groups@.subrange(0, start as int) == groups@.take(start as int));
            assert(groups@.subrange(start + len, 8) == groups@.skip(start + len));
            assert(text@ =~= old(text)@ + ipv6_text(groups@));
        }
    } else {
        append_groups(text, groups, 0, 8);
        proof {
            assert(groups@.subrange(0, 8) == groups@);
            assert forall|s: int, l: nat| l >= 2 implies !is_longest_zero_run(groups@, s, l) by {
                if is_longest_zero_run(groups@, s, l) {
                    if len >= 1 {
                        lemma_longest_zero_run_unique(groups@, start as int, len as nat, s, l);
                    } else {
                        assert(zero_run(groups@, s) == 0);
                    }
                }
            }
        }
    }
}

} // verus!
