//! Digits, numerals and separated fields: the vocabulary in which the
//! textual forms of addresses and endpoints are stated.

use vstd::prelude::*;

verus! {

/// `c` is one of `0` to `9`.
pub open spec fn is_decimal_digit(c: char) -> bool {
    '0' <= c && c <= '9'
}

/// `c` is a decimal digit or a letter `a` to `f` in either case.
pub open spec fn is_hex_digit(c: char) -> bool {
    is_decimal_digit(c) || ('a' <= c && c <= 'f') || ('A' <= c && c <= 'F')
}

/// The number that the hexadecimal (or decimal) digit `c` stands for.
pub open spec fn digit_value(c: char) -> nat {
    if is_decimal_digit(c) {
        (c as int - '0' as int) as nat
    } else if 'a' <= c && c <= 'f' {
        (c as int - 'a' as int + 10) as nat
    } else {
        (c as int - 'A' as int + 10) as nat
    }
}

/// The digit that stands for `d`, for `d` below sixteen; letters are lower case.
pub open spec fn digit_char(d: nat) -> char {
    if d < 10 {
        ('0' as int + d) as char
    } else {
        ('a' as int + d - 10) as char
    }
}

/// The number written by `digits` in base ten, most significant digit first.
pub open spec fn decimal_value(digits: Seq<char>) -> nat
    decreases digits.len(),
{
    if digits.len() == 0 {
        0
    } else {
        decimal_value(digits.drop_last()) * 10 + digit_value(digits.last())
    }
}

/// The number written by `digits` in base sixteen, most significant digit first.
pub open spec fn hex_value(digits: Seq<char>) -> nat
    decreases digits.len(),
{
    if digits.len() == 0 {
        0
    } else {
        hex_value(digits.drop_last()) * 16 + digit_value(digits.last())
    }
}

/// The shortest decimal numeral of `n`.
pub open spec fn decimal_text(n: nat) -> Seq<char>
    decreases n,
{
    if n < 10 {
        seq![digit_char(n)]
    } else {
        decimal_text(n / 10).push(digit_char(n % 10))
    }
}

/// The shortest hexadecimal numeral of `n`, in lower case.
pub open spec fn hex_text(n: nat) -> Seq<char>
    decreases n,
{
    if n < 16 {
        seq![digit_char(n)]
    } else {
        hex_text(n / 16).push(digit_char(n % 16))
    }
}

/// Every character of `s` is a decimal digit.
pub open spec fn all_decimal(s: Seq<char>) -> bool {
    forall|i: int| 0 <= i < s.len() ==> is_decimal_digit(#[trigger] s[i])
}

/// Every character of `s` is a hexadecimal digit.
pub open spec fn all_hex(s: Seq<char>) -> bool {
    forall|i: int| 0 <= i < s.len() ==> is_hex_digit(#[trigger] s[i])
}

/// The fields of `s` between occurrences of `sep`. Reading from the left,
/// a separator closes the current field and opens an empty one; any other
/// character extends the current field. The empty text has one empty field.
pub open spec fn fields(s: Seq<char>, sep: char) -> Seq<Seq<char>>
    decreases s.len(),
{
    if s.len() == 0 {
        seq![Seq::empty()]
    } else {
        let before = fields(s.drop_last(), sep);
        if s.last() == sep {
            before.push(Seq::empty())
        } else {
            before.update(before.len() - 1, before.last().push(s.last()))
        }
    }
}

/// The character sequences held by a list of character vectors.
pub open spec fn views(parts: Seq<Vec<char>>) -> Seq<Seq<char>> {
    Seq::new(parts.len(), |i: int| parts[i]@)
}

/// A text always has at least one field.
pub proof fn lemma_fields_nonempty(s: Seq<char>, sep: char)
    ensures
        fields(s, sep).len() >= 1,
    decreases s.len(),
{
    if s.len() > 0 {
        lemma_fields_nonempty(s.drop_last(), sep);
    }
}

/// A text without separators is its own single field.
pub proof fn lemma_fields_single(s: Seq<char>, sep: char)
    requires
        !s.contains(sep),
    ensures
        fields(s, sep) == seq![s],
    decreases s.len(),
{
    if s.len() > 0 {
        let t = s.drop_last();
        assert(!t.contains(sep)) by {
            if t.contains(sep) {
                let i = choose|i: int| 0 <= i < t.len() && t[i] == sep;
                assert(s[i] == sep);
            }
        }
        lemma_fields_single(t, sep);
        assert(s.last() != sep) by {
            assert(s[s.len() - 1] == s.last());
        }
        assert(t.push(s.last()) == s);
        assert(seq![t].update(0, t.push(s.last())) == seq![s]);
    } else {
        assert(s == Seq::<char>::empty());
    }
}

/// Appending a separator and a text without separators adds that text
/// as one more field.
pub proof fn lemma_fields_append(x: Seq<char>, y: Seq<char>, sep: char)
    requires
        !y.contains(sep),
    ensures
        fields(x + seq![sep] + y, sep) == fields(x, sep).push(y),
    decreases y.len(),
{
    let s = x + seq![sep] + y;
    if y.len() == 0 {
        assert(s.drop_last() == x);
        assert(y == Seq::<char>::empty());
    } else {
        let t = y.drop_last();
        assert(!t.contains(sep)) by {
            if t.contains(sep) {
                let i = choose|i: int| 0 <= i < t.len() && t[i] == sep;
                assert(y[i] == sep);
            }
        }
        lemma_fields_append(x, t, sep);
        assert(s.drop_last() == x + seq![sep] + t);
        assert(s.last() == y.last());
        assert(y.last() != sep) by {
            assert(y[y.len() - 1] == y.last());
        }
        assert(t.push(y.last()) == y);
        let before = fields(x, sep).push(t);
        assert(before.update(before.len() - 1, before.last().push(y.last())) == fields(
            x,
            sep,
        ).push(y));
    }
}

/// A character of `s` other than the separator stands in one of the fields.
pub proof fn lemma_fields_cover(s: Seq<char>, sep: char, c: char)
    requires
        s.contains(c),
        c != sep,
    ensures
        exists|k: int| 0 <= k < fields(s, sep).len() && (#[trigger] fields(s, sep)[k]).contains(c),
    decreases s.len(),
{
    let i = choose|i: int| 0 <= i < s.len() && s[i] == c;
    let front = s.drop_last();
    let before = fields(front, sep);
    let now = fields(s, sep);
    lemma_fields_nonempty(front, sep);
    let last = before.len() - 1;
    if i == s.len() - 1 {
        let grown = before.last().push(c);
        assert(grown[grown.len() - 1] == c);
        assert(now[last] == grown);
    } else {
        assert(front[i] == c);
        lemma_fields_cover(front, sep, c);
        let k = choose|k: int| 0 <= k < before.len() && (#[trigger] before[k]).contains(c);
        let j = choose|j: int| 0 <= j < before[k].len() && before[k][j] == c;
        if s.last() == sep || k < last {
            assert(now[k] == before[k]);
        } else {
            let grown = before.last().push(s.last());
            assert(grown[j] == c);
            assert(now[k] == grown);
        }
    }
}

/// A text is cut at its first separator in one way only.
pub proof fn lemma_cut_at_first(
    a: Seq<char>,
    b: Seq<char>,
    c: Seq<char>,
    d: Seq<char>,
    sep: char,
)
    requires
        a + seq![sep] + b == c + seq![sep] + d,
        !a.contains(sep),
        !c.contains(sep),
    ensures
        a == c,
        b == d,
{
    let whole = a + seq![sep] + b;
    let other = c + seq![sep] + d;
    if a.len() < c.len() {
        assert(whole[a.len() as int] == sep);
        assert(other[a.len() as int] == c[a.len() as int]);
    }
    if c.len() < a.len() {
        assert(other[c.len() as int] == sep);
        assert(whole[c.len() as int] == a[c.len() as int]);
    }
    assert(a =~= whole.take(a.len() as int));
    assert(c =~= other.take(c.len() as int));
    assert(b =~= whole.skip(a.len() as int + 1));
    assert(d =~= other.skip(c.len() as int + 1));
}

/// A text is cut at its last separator in one way only.
pub proof fn lemma_cut_at_last(
    a: Seq<char>,
    b: Seq<char>,
    c: Seq<char>,
    d: Seq<char>,
    sep: char,
)
    requires
        a + seq![sep] + b == c + seq![sep] + d,
        !b.contains(sep),
        !d.contains(sep),
    ensures
        a == c,
        b == d,
{
    let whole = a + seq![sep] + b;
    let other = c + seq![sep] + d;
    assert(whole.len() == a.len() + 1 + b.len());
    assert(other.len() == c.len() + 1 + d.len());
    if a.len() < c.len() {
        assert(other[c.len() as int] == sep);
        assert(whole[c.len() as int] == b[c.len() - a.len() - 1]);
    }
    if c.len() < a.len() {
        assert(whole[a.len() as int] == sep);
        assert(other[a.len() as int] == d[a.len() - c.len() - 1]);
    }
    assert(a =~= whole.take(a.len() as int));
    assert(c =~= other.take(c.len() as int));
    assert(b =~= whole.skip(a.len() as int + 1));
    assert(d =~= other.skip(c.len() as int + 1));
}

/// What holds of the shortest decimal numeral of `n`: it is made of
/// digits, has no leading zero unless it is `0` itself, is read back as
/// `n`, and is no longer than the size of `n` requires.
pub proof fn lemma_decimal_text(n: nat)
    ensures
        decimal_text(n).len() >= 1,
        all_decimal(decimal_text(n)),
        decimal_value(decimal_text(n)) == n,
        decimal_text(n).len() > 1 ==> decimal_text(n)[0] != '0',
        n < 10 <==> decimal_text(n).len() == 1,
        n < 100 ==> decimal_text(n).len() <= 2,
        n < 1000 ==> decimal_text(n).len() <= 3,
        n < 10000 ==> decimal_text(n).len() <= 4,
        n < 100000 ==> decimal_text(n).len() <= 5,
    decreases n,
{
    let text = decimal_text(n);
    if n < 10 {
        assert(text.drop_last() == Seq::<char>::empty());
        assert(decimal_value(text.drop_last()) == 0);
    } else {
        lemma_decimal_text(n / 10);
        assert(text.drop_last() == decimal_text(n / 10));
    }
}

/// What holds of the shortest hexadecimal numeral of `n`: it is made of
/// hexadecimal digits, is read back as `n`, and has at most four digits
/// when `n` fits in sixteen bits.
pub proof fn lemma_hex_text(n: nat)
    ensures
        hex_text(n).len() >= 1,
        all_hex(hex_text(n)),
        hex_value(hex_text(n)) == n,
        n < 0x10 ==> hex_text(n).len() == 1,
        n < 0x100 ==> hex_text(n).len() <= 2,
        n < 0x1000 ==> hex_text(n).len() <= 3,
        n < 0x10000 ==> hex_text(n).len() <= 4,
    decreases n,
{
    let text = hex_text(n);
    if n < 16 {
        assert(text.drop_last() == Seq::<char>::empty());
        assert(hex_value(text.drop_last()) == 0);
    } else {
        lemma_hex_text(n / 16);
        assert(text.drop_last() == hex_text(n / 16));
    }
}

/// A decimal numeral holds neither a dot nor a colon.
pub proof fn lemma_decimal_text_plain(n: nat)
    ensures
        !decimal_text(n).contains('.'),
        !decimal_text(n).contains(':'),
{
    lemma_decimal_text(n);
    let text = decimal_text(n);
    if text.contains('.') {
        let i = choose|i: int| 0 <= i < text.len() && text[i] == '.';
        assert(is_decimal_digit(text[i]));
    }
    if text.contains(':') {
        let i = choose|i: int| 0 <= i < text.len() && text[i] == ':';
        assert(is_decimal_digit(text[i]));
    }
}

/// A hexadecimal numeral holds neither a dot nor a colon.
pub proof fn lemma_hex_text_plain(n: nat)
    ensures
        !hex_text(n).contains('.'),
        !hex_text(n).contains(':'),
{
    lemma_hex_text(n);
    let text = hex_text(n);
    if text.contains('.') {
        let i = choose|i: int| 0 <= i < text.len() && text[i] == '.';
        assert(is_hex_digit(text[i]));
    }
    if text.contains(':') {
        let i = choose|i: int| 0 <= i < text.len() && text[i] == ':';
        assert(is_hex_digit(text[i]));
    }
}

/// The one-character string of the digit for `d`.
pub fn digit_str(d: u8) -> (s: &'static str)
    requires
        d < 16,
    ensures
        s@ == seq![digit_char(d as nat)],
{
    proof {
        reveal_strlit("0");
        reveal_strlit("1");
        reveal_strlit("2");
        reveal_strlit("3");
        reveal_strlit("4");
        reveal_strlit("5");
        reveal_strlit("6");
        reveal_strlit("7");
        reveal_strlit("8");
        reveal_strlit("9");
        reveal_strlit("a");
        reveal_strlit("b");
        reveal_strlit("c");
        reveal_strlit("d");
        reveal_strlit("e");
        reveal_strlit("f");
    }
    let s = match d {
        0 => "0",
        1 => "1",
        2 => "2",
        3 => "3",
        4 => "4",
        5 => "5",
        6 => "6",
        7 => "7",
        8 => "8",
        9 => "9",
        10 => "a",
        11 => "b",
        12 => "c",
        13 => "d",
        14 => "e",
        _ => "f",
    };
    assert(s@ =~= seq![digit_char(d as nat)]);
    s
}

/// Appends the shortest decimal numeral of `n` to `text`.
pub fn append_decimal(text: &mut String, n: u16)
    ensures
        final(text)@ == old(text)@ + decimal_text(n as nat),
    decreases n,
{
    if n >= 10 {
        append_decimal(text, n / 10);
    }
    text.append(digit_str((n % 10) as u8));
    assert(text@ =~= old(text)@ + decimal_text(n as nat));
}

/// Appends the shortest lower-case hexadecimal numeral of `n` to `text`.
pub fn append_hex(text: &mut String, n: u16)
    ensures
        final(text)@ == old(text)@ + hex_text(n as nat),
    decreases n,
{
    if n >= 16 {
        append_hex(text, n / 16);
    }
    text.append(digit_str((n % 16) as u8));
    assert(text@ =~= old(text)@ + hex_text(n as nat));
}

/// The characters of a string slice, as a vector.
pub fn chars_of(s: &str) -> (chars: Vec<char>)
    ensures
        chars@ == s@,
{
    let mut chars: Vec<char> = Vec::new();
    for c in it: s.chars()
        invariant
            chars@ == it.seq().take(it.index() as int),
            it.seq() == s@,
    {
        chars.push(c);
    }
    chars
}

/// Whether `chars` spell exactly the string `other`.
pub fn text_eq(chars: &Vec<char>, other: &str) -> (same: bool)
    ensures
        same == (chars@ == other@),
{
    let expected = chars_of(other);
    if expected.len() != chars.len() {
        return false;
    }
    let mut i: usize = 0;
    while i < chars.len()
        invariant
            i <= chars.len() == expected.len(),
            expected@ == other@,
            chars@.take(i as int) == expected@.take(i as int),
        decreases chars.len() - i,
    {
        if chars[i] != expected[i] {
            return false;
        }
        assert(chars@.take(i + 1) == chars@.take(i as int).push(chars@[i as int]));
        assert(expected@.take(i + 1) == expected@.take(i as int).push(expected@[i as int]));
        i += 1;
    }
    assert(chars@.take(chars.len() as int) == chars@);
    assert(expected@.take(expected.len() as int) == expected@);
    true
}

/// Whether `chars` begin with the string `prefix`.
pub fn starts_with(chars: &Vec<char>, prefix: &str) -> (found: bool)
    ensures
        found == prefix@.is_prefix_of(chars@),
{
    let expected = chars_of(prefix);
    let n: usize = expected.len();
    if n > chars.len() {
        return false;
    }
    let mut i: usize = 0;
    while i < n
        invariant
            i <= n == expected.len(),
            n <= chars.len(),
            expected@ == prefix@,
            chars@.take(i as int) == expected@.take(i as int),
        decreases n - i,
    {
        if chars[i] != expected[i] {
            assert(chars@.subrange(0, n as int)[i as int] != expected@[i as int]);
            return false;
        }
        assert(chars@.take(i + 1) == chars@.take(i as int).push(chars@[i as int]));
        assert(expected@.take(i + 1) == expected@.take(i as int).push(expected@[i as int]));
        i += 1;
    }
    assert(expected@.take(n as int) == expected@);
    assert(chars@.take(n as int) == chars@.subrange(0, n as int));
    true
}

/// Splits `chars[from..to]` at every `sep`.
pub fn split_fields(chars: &Vec<char>, from: usize, to: usize, sep: char) -> (parts: Vec<
    Vec<char>,
>)
    requires
        from <= to <= chars.len(),
    ensures
        views(parts@) == fields(chars@.subrange(from as int, to as int), sep),
{
    let mut parts: Vec<Vec<char>> = Vec::new();
    let mut current: Vec<char> = Vec::new();
    let mut i: usize = from;
    while i < to
        invariant
            from <= i <= to <= chars.len(),
            views(parts@).push(current@) == fields(chars@.subrange(from as int, i as int), sep),
        decreases to - i,
    {
        let c = chars[i];
        proof {
            let done = chars@.subrange(from as int, i as int);
            let next = chars@.subrange(from as int, i + 1);
            assert(next.drop_last() == done);
            assert(next.last() == c);
            lemma_fields_nonempty(done, sep);
        }
        let ghost before = views(parts@).push(current@);
        if c == sep {
            parts.push(current);
            current = Vec::new();
            assert(views(parts@).push(current@) == before.push(Seq::empty()));
        } else {
            current.push(c);
            assert(views(parts@).push(current@) == before.update(
                before.len() - 1,
                before.last().push(c),
            ));
        }
        i += 1;
    }
    let ghost before = views(parts@).push(current@);
    parts.push(current);
    assert(views(parts@) == before);
    parts
}

} // verus!
