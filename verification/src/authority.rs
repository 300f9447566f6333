//! The port that a connection string writes after its host.
//!
//! This is the reading of the schemes of the web (`http`, `https`, `ws`,
//! `wss` and `ftp`), where a port can be written and yet be the one
//! that the scheme is known by. There the authority of a connection
//! string stands after the scheme's colon and the slashes that follow
//! it, and runs to the next slash, `?` or `#`; a backslash counts as a
//! slash. The authority holds the host, user information before an `@`
//! if there is any, and the port after the last colon.

use crate::text::{
    all_decimal, all_hex, chars_of, decimal_text, decimal_value, is_decimal_digit, is_hex_digit,
    lemma_decimal_text, lemma_decimal_text_plain,
};
use vstd::prelude::*;

verus! {

/// `c` is a space or a control character below it. A connection string
/// is read as if it held none of these.
pub open spec fn is_blank(c: char) -> bool {
    c <= ' '
}

/// `s` without its blanks.
pub open spec fn without_blanks(s: Seq<char>) -> Seq<char>
    decreases s.len(),
{
    if s.len() == 0 {
        Seq::empty()
    } else if is_blank(s.last()) {
        without_blanks(s.drop_last())
    } else {
        without_blanks(s.drop_last()).push(s.last())
    }
}

/// A place in a connection string that a scan stops at.
#[derive(Debug, Clone, Copy, PartialEq, Eq)]
pub enum Mark {
    /// A colon.
    Colon,
    /// Anything but `/` and `\`.
    NotSlash,
    /// What ends the authority: `/`, `\`, `?` or `#`.
    AuthorityEnd,
}

impl Mark {
    /// `c` is such a place.
    pub open spec fn at(self, c: char) -> bool {
        match self {
            Mark::Colon => c == ':',
            Mark::NotSlash => c != '/' && c != '\\',
            Mark::AuthorityEnd => c == '/' || c == '\\' || c == '?' || c == '#',
        }
    }

    /// Whether `c` is such a place.
    pub fn is_at(&self, c: char) -> (found: bool)
        ensures
            found == self.at(c),
    {
        match self {
            Mark::Colon => c == ':',
            Mark::NotSlash => c != '/' && c != '\\',
            Mark::AuthorityEnd => c == '/' || c == '\\' || c == '?' || c == '#',
        }
    }
}

/// The least index from `from` on at which `s` has the mark, or the
/// length of `s` if it has none there.
pub open spec fn next_mark(s: Seq<char>, from: int, mark: Mark) -> int
    decreases s.len() - from,
{
    if from < 0 || from >= s.len() {
        s.len() as int
    } else if mark.at(s[from]) {
        from
    } else {
        next_mark(s, from + 1, mark)
    }
}

/// The greatest index at which `s` has `c`, if it has it at all.
pub open spec fn last_index_of(s: Seq<char>, c: char) -> Option<int>
    decreases s.len(),
{
    if s.len() == 0 {
        None
    } else if s.last() == c {
        Some(s.len() - 1)
    } else {
        last_index_of(s.drop_last(), c)
    }
}

/// The port that `digits` write: a decimal numeral of at most 65535.
pub open spec fn port_of_digits(digits: Seq<char>) -> Option<u16> {
    if digits.len() >= 1 && all_decimal(digits) && decimal_value(digits) <= 65535 {
        Some(decimal_value(digits) as u16)
    } else {
        None
    }
}

/// The authority of the connection string `t`.
pub open spec fn authority(t: Seq<char>) -> Seq<char> {
    let start = next_mark(t, next_mark(t, 0, Mark::Colon) + 1, Mark::NotSlash);
    t.subrange(start, next_mark(t, start, Mark::AuthorityEnd))
}

/// What follows the last `@` of `authority`, or all of it if it has none.
pub open spec fn host_and_port(authority: Seq<char>) -> Seq<char> {
    match last_index_of(authority, '@') {
        Some(k) => authority.skip(k + 1),
        None => authority,
    }
}

/// The port that the connection string `s` writes, read as a text in a
/// scheme of the web: the decimal numeral after the last colon of the
/// host and port in its authority, blanks left aside. `None` if there
/// is no such colon, or no numeral of at most 65535 after it.
pub open spec fn written_port(s: Seq<char>) -> Option<u16> {
    let rest = host_and_port(authority(without_blanks(s)));
    match last_index_of(rest, ':') {
        Some(p) => port_of_digits(rest.skip(p + 1)),
        None => None,
    }
}

/// A scan stops between its start and the end of the text.
pub proof fn lemma_next_mark_bounds(s: Seq<char>, from: int, mark: Mark)
    requires
        0 <= from <= s.len(),
    ensures
        from <= next_mark(s, from, mark) <= s.len(),
    decreases s.len() - from,
{
    if from < s.len() && !mark.at(s[from]) {
        lemma_next_mark_bounds(s, from + 1, mark);
    }
}

/// The value of a numeral is at least that of each of its beginnings.
pub proof fn lemma_decimal_value_grows(digits: Seq<char>, k: int)
    requires
        0 <= k <= digits.len(),
    ensures
        decimal_value(digits.take(k)) <= decimal_value(digits),
    decreases digits.len() - k,
{
    if k < digits.len() {
        lemma_decimal_value_grows(digits, k + 1);
        assert(digits.take(k + 1).drop_last() == digits.take(k));
    } else {
        assert(digits.take(k) == digits);
    }
}

/// `c` can stand in a host: it is no blank, no `@`, and does not end
/// the authority.
pub open spec fn is_host_char(c: char) -> bool {
    !is_blank(c) && !Mark::AuthorityEnd.at(c) && c != '@'
}

/// Every character of `s` can stand in a host.
pub open spec fn all_host_chars(s: Seq<char>) -> bool {
    forall|i: int| 0 <= i < s.len() ==> is_host_char(#[trigger] s[i])
}

/// Two texts that can stand in a host can do so one after the other.
pub proof fn lemma_host_chars_concat(a: Seq<char>, b: Seq<char>)
    requires
        all_host_chars(a),
        all_host_chars(b),
    ensures
        all_host_chars(a + b),
{
    assert forall|i: int| 0 <= i < (a + b).len() implies is_host_char(#[trigger] (a + b)[i]) by {
        if i < a.len() {
            assert((a + b)[i] == a[i]);
        } else {
            assert((a + b)[i] == b[i - a.len()]);
        }
    }
}

/// Digits can stand in a host.
pub proof fn lemma_digits_are_host_chars(s: Seq<char>)
    ensures
        all_decimal(s) ==> all_host_chars(s),
        all_hex(s) ==> all_host_chars(s),
{
    if all_decimal(s) {
        assert forall|i: int| 0 <= i < s.len() implies is_host_char(#[trigger] s[i]) by {
            assert(is_decimal_digit(s[i]));
        }
    }
    if all_hex(s) {
        assert forall|i: int| 0 <= i < s.len() implies is_host_char(#[trigger] s[i]) by {
            assert(is_hex_digit(s[i]));
        }
    }
}

/// A text without blanks stays as it is.
pub proof fn lemma_without_blanks_same(s: Seq<char>)
    requires
        forall|i: int| 0 <= i < s.len() ==> !is_blank(#[trigger] s[i]),
    ensures
        without_blanks(s) == s,
    decreases s.len(),
{
    if s.len() == 0 {
        assert(s =~= Seq::<char>::empty());
    } else {
        let front = s.drop_last();
        assert forall|i: int| 0 <= i < front.len() implies !is_blank(#[trigger] front[i]) by {
            assert(front[i] == s[i]);
        }
        lemma_without_blanks_same(front);
        assert(!is_blank(s[s.len() - 1]));
        assert(front.push(s.last()) =~= s);
    }
}

/// A scan stops at the first mark.
pub proof fn lemma_next_mark_is(s: Seq<char>, from: int, mark: Mark, at: int)
    requires
        0 <= from <= at <= s.len(),
        forall|j: int| from <= j < at ==> !mark.at(#[trigger] s[j]),
        at < s.len() ==> mark.at(s[at]),
    ensures
        next_mark(s, from, mark) == at,
    decreases at - from,
{
    if from < at {
        assert(!mark.at(s[from]));
        lemma_next_mark_is(s, from + 1, mark, at);
    }
}

/// A text that does not hold `c` has no last `c`.
pub proof fn lemma_last_index_absent(s: Seq<char>, c: char)
    requires
        !s.contains(c),
    ensures
        last_index_of(s, c) is None,
    decreases s.len(),
{
    if s.len() > 0 {
        let front = s.drop_last();
        assert(s[s.len() - 1] != c);
        if front.contains(c) {
            let i = choose|i: int| 0 <= i < front.len() && front[i] == c;
            assert(s[i] == c);
        }
        lemma_last_index_absent(front, c);
    }
}

/// The last `c` is the one that no `c` follows.
pub proof fn lemma_last_index_before(x: Seq<char>, y: Seq<char>, c: char)
    requires
        !y.contains(c),
    ensures
        last_index_of(x + seq![c] + y, c) == Some(x.len() as int),
    decreases y.len(),
{
    let s = x + seq![c] + y;
    if y.len() > 0 {
        let front = y.drop_last();
        assert(y[y.len() - 1] != c);
        if front.contains(c) {
            let i = choose|i: int| 0 <= i < front.len() && front[i] == c;
            assert(y[i] == c);
        }
        lemma_last_index_before(x, front, c);
        assert(s.drop_last() =~= x + seq![c] + front);
        assert(s.last() == y.last());
    } else {
        assert(s.last() == c);
    }
}

/// The authority of a text made of a name, `://` and a rest is that
/// rest, and the text has no blanks, where the name holds no colon and
/// both are made of characters that can stand in a host.
pub proof fn lemma_authority_of_text(name: Seq<char>, rest: Seq<char>)
    requires
        all_host_chars(name),
        !name.contains(':'),
        rest.len() > 0,
        all_host_chars(rest),
    ensures
        without_blanks(name + seq![':'] + (seq!['/', '/'] + rest)) == name + seq![':'] + (seq![
            '/',
            '/',
        ] + rest),
        authority(name + seq![':'] + (seq!['/', '/'] + rest)) == rest,
        host_and_port(rest) == rest,
{
    let text = name + seq![':'] + (seq!['/', '/'] + rest);
    let n = name.len() as int;
    let start = n + 3;
    assert(text.len() == start + rest.len());
    assert forall|i: int| 0 <= i < text.len() implies !is_blank(#[trigger] text[i]) by {
        if i < n {
            assert(text[i] == name[i]);
        } else if i >= start {
            assert(text[i] == rest[i - start]);
        }
    }
    lemma_without_blanks_same(text);
    assert forall|j: int| 0 <= j < n implies !Mark::Colon.at(#[trigger] text[j]) by {
        assert(text[j] == name[j]);
    }
    lemma_next_mark_is(text, 0, Mark::Colon, n);
    assert(text[start] == rest[0]);
    lemma_next_mark_is(text, n + 1, Mark::NotSlash, start);
    assert forall|j: int| start <= j < text.len() implies !Mark::AuthorityEnd.at(
        #[trigger] text[j],
    ) by {
        assert(text[j] == rest[j - start]);
    }
    lemma_next_mark_is(text, start, Mark::AuthorityEnd, text.len() as int);
    assert(authority(text) =~= rest);
    if rest.contains('@') {
        let i = choose|i: int| 0 <= i < rest.len() && rest[i] == '@';
        assert(is_host_char(rest[i]));
    }
    lemma_last_index_absent(rest, '@');
}

/// The port written after a host is read as written: in the text made
/// of a name, `://`, a host, `:` and the numeral of a port, where the
/// name holds no colon and is, like the host, made of characters that
/// can stand in a host.
pub proof fn lemma_written_port_of_text(name: Seq<char>, host: Seq<char>, port: u16)
    requires
        all_host_chars(name),
        !name.contains(':'),
        host.len() > 0,
        all_host_chars(host),
    ensures
        written_port(
            name + seq![':'] + (seq!['/', '/'] + host + seq![':'] + decimal_text(port as nat)),
        ) == Some(port),
{
    let digits = decimal_text(port as nat);
    let rest = host + seq![':'] + digits;
    lemma_decimal_text(port as nat);
    lemma_decimal_text_plain(port as nat);
    lemma_digits_are_host_chars(digits);
    assert(all_host_chars(seq![':']));
    lemma_host_chars_concat(host, seq![':']);
    lemma_host_chars_concat(host + seq![':'], digits);
    lemma_authority_of_text(name, rest);
    assert(name + seq![':'] + (seq!['/', '/'] + host + seq![':'] + digits) =~= name + seq![':']
        + (seq!['/', '/'] + rest));
    lemma_last_index_before(host, digits, ':');
    assert(rest.skip(host.len() as int + 1) =~= digits);
}

/// A text that ends with its host writes no port: the text made of a
/// name, `://` and a host without a colon, where the name holds no colon
/// and is, like the host, made of characters that can stand in a host.
pub proof fn lemma_no_written_port_in_text(name: Seq<char>, host: Seq<char>)
    requires
        all_host_chars(name),
        !name.contains(':'),
        host.len() > 0,
        all_host_chars(host),
        !host.contains(':'),
    ensures
        written_port(name + seq![':'] + (seq!['/', '/'] + host)) is None,
{
    lemma_authority_of_text(name, host);
    lemma_last_index_absent(host, ':');
}

/// Copies `chars` without its blanks.
pub fn strip_blanks(chars: &Vec<char>) -> (kept: Vec<char>)
    ensures
        kept@ == without_blanks(chars@),
{
    let mut kept: Vec<char> = Vec::new();
    let mut i: usize = 0;
    while i < chars.len()
        invariant
            i <= chars.len(),
            kept@ == without_blanks(chars@.take(i as int)),
        decreases chars.len() - i,
    {
        let c = chars[i];
        proof {
            let next = chars@.take(i + 1);
            assert(next.drop_last() == chars@.take(i as int));
            assert(next.last() == c);
        }
        if c > ' ' {
            kept.push(c);
        }
        i += 1;
    }
    assert(chars@.take(chars.len() as int) == chars@);
    kept
}

/// Finds the next mark from `from` on.
pub fn find_mark(chars: &Vec<char>, from: usize, mark: Mark) -> (at: usize)
    requires
        from <= chars.len(),
    ensures
        at == next_mark(chars@, from as int, mark),
        from <= at <= chars.len(),
{
    let mut i: usize = from;
    while i < chars.len() && !mark.is_at(chars[i])
        invariant
            from <= i <= chars.len(),
            next_mark(chars@, from as int, mark) == next_mark(chars@, i as int, mark),
        decreases chars.len() - i,
    {
        i += 1;
    }
    i
}

/// Finds the last `c` in `chars[from..to]`, as an index into `chars`.
pub fn find_last(chars: &Vec<char>, from: usize, to: usize, c: char) -> (at: Option<usize>)
    requires
        from <= to <= chars.len(),
    ensures
        match at {
            Some(k) => from <= k < to && last_index_of(
                chars@.subrange(from as int, to as int),
                c,
            ) == Some(k - from),
            None => last_index_of(chars@.subrange(from as int, to as int), c) is None,
        },
{
    let mut j: usize = to;
    while j > from
        invariant
            from <= j <= to <= chars.len(),
            last_index_of(chars@.subrange(from as int, to as int), c) == last_index_of(
                chars@.subrange(from as int, j as int),
                c,
            ),
        decreases j,
    {
        let ghost here = chars@.subrange(from as int, j as int);
        assert(here.last() == chars@[j - 1]);
        assert(here.drop_last() == chars@.subrange(from as int, j - 1));
        if chars[j - 1] == c {
            return Some(j - 1);
        }
        j -= 1;
    }
    None
}

/// Reads a port from the digits `chars[from..to]`.
pub fn parse_port_digits(chars: &Vec<char>, from: usize, to: usize) -> (port: Option<u16>)
    requires
        from <= to <= chars.len(),
    ensures
        port == port_of_digits(chars@.subrange(from as int, to as int)),
{
    if from == to {
        return None;
    }
    let ghost digits = chars@.subrange(from as int, to as int);
    let mut value: u32 = 0;
    let mut i: usize = from;
    while i < to
        invariant
            from <= i <= to <= chars.len(),
            from < to,
            digits == chars@.subrange(from as int, to as int),
            all_decimal(digits.take(i - from)),
            value == decimal_value(digits.take(i - from)),
            value <= 65535,
        decreases to - i,
    {
        let c = chars[i];
        if !(c >= '0' && c <= '9') {
            assert(!is_decimal_digit(digits[i - from]));
            return None;
        }
        proof {
            let next = digits.take(i - from + 1);
            assert(next.drop_last() == digits.take(i - from));
            assert(next.last() == c);
            lemma_decimal_value_grows(digits, i - from + 1);
        }
        value = value * 10 + (c as u32 - '0' as u32);
        if value > 65535 {
            return None;
        }
        i += 1;
    }
    assert(digits.take(to - from) == digits);
    Some(value as u16)
}

/// Reads the port that a connection string writes, as a text in a
/// scheme of the web.
pub fn find_written_port(text: &str) -> (port: Option<u16>)
    ensures
        port == written_port(text@),
{
    let all = chars_of(text);
    let chars = strip_blanks(&all);
    let n: usize = chars.len();
    let colon: usize = find_mark(&chars, 0, Mark::Colon);
    if colon >= n {
        assert(authority(chars@) =~= Seq::<char>::empty());
        return None;
    }
    let start: usize = find_mark(&chars, colon + 1, Mark::NotSlash);
    let end: usize = find_mark(&chars, start, Mark::AuthorityEnd);
    let ghost whole = chars@.subrange(start as int, end as int);
    let host: usize = match find_last(&chars, start, end, '@') {
        Some(k) => k + 1,
        None => start,
    };
    let ghost rest = chars@.subrange(host as int, end as int);
    assert(rest =~= host_and_port(whole));
    match find_last(&chars, host, end, ':') {
        Some(p) => {
            assert(chars@.subrange(p + 1, end as int) =~= rest.skip(p - host + 1));
            parse_port_digits(&chars, p + 1, end)
        },
        None => None,
    }
}

} // verus!
