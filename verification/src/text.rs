//! Decimal numbers as text, and text cut into fields at a separator.

use vstd::prelude::*;
use vstd::string::*;

verus! {

/// The character of a decimal digit.
pub open spec fn digit_char(d: int) -> char {
    (('0' as int) + d) as char
}

/// Whether `c` is one of `0` to `9`.
pub open spec fn is_digit(c: char) -> bool {
    '0' <= c <= '9'
}

/// The decimal digits of `n`, without leading zeros (`0` itself is "0").
pub open spec fn digits_text(n: nat) -> Seq<char>
    decreases n,
{
    if n < 10 {
        seq![digit_char(n as int)]
    } else {
        digits_text(n / 10).push(digit_char((n % 10) as int))
    }
}

/// The decimal text of `v`, with a leading `-` below zero.
pub open spec fn decimal_text(v: int) -> Seq<char> {
    if v < 0 {
        seq!['-'] + digits_text((-v) as nat)
    } else {
        digits_text(v as nat)
    }
}

/// Whether `text` is a non-empty run of decimal digits.
pub open spec fn is_digits(text: Seq<char>) -> bool {
    &&& text.len() > 0
    &&& forall|i: int| 0 <= i < text.len() ==> is_digit(#[trigger] text[i])
}

/// The number that a run of decimal digits spells.
pub open spec fn digits_value(text: Seq<char>) -> nat
    decreases text.len(),
{
    if text.len() == 0 {
        0
    } else {
        digits_value(text.drop_last()) * 10 + ((text.last() as int) - ('0' as int)) as nat
    }
}

/// The number that `text` spells as a signed decimal: an optional `+` or `-`,
/// then digits only, the value within `min..=max`. Anything else is `None`.
pub open spec fn parse_signed(text: Seq<char>, min: int, max: int) -> Option<int> {
    let negative = text.len() > 0 && text[0] == '-';
    let signed = text.len() > 0 && (text[0] == '-' || text[0] == '+');
    let body = if signed {
        text.skip(1)
    } else {
        text
    };
    let value = if negative {
        -(digits_value(body) as int)
    } else {
        digits_value(body) as int
    };
    if is_digits(body) && min <= value <= max {
        Some(value)
    } else {
        None
    }
}

/// The number that `text` spells as an unsigned decimal: an optional `+`,
/// then digits only, the value at most `max`. Anything else is `None`.
pub open spec fn parse_unsigned(text: Seq<char>, max: int) -> Option<int> {
    let signed = text.len() > 0 && text[0] == '+';
    let body = if signed {
        text.skip(1)
    } else {
        text
    };
    if is_digits(body) && digits_value(body) <= max {
        Some(digits_value(body) as int)
    } else {
        None
    }
}

/// The text of one decimal digit.
fn digit_str(d: u64) -> (text: &'static str)
    requires
        d < 10,
    ensures
        text@ == seq![digit_char(d as int)],
{
    proof {
        reveal_strlit("0");
        reveal_strlit("1");
        reveal_strlit("2");
        reveal_strlit("3");
        reveal_strlit("4");
        reveal_strlit("5");
        reveal_strlit("6");
        reveal_strlit("7");
        reveal_strlit("8");
        reveal_strlit("9");
    }
    let text: &'static str = if d == 0 {
        "0"
    } else if d == 1 {
        "1"
    } else if d == 2 {
        "2"
    } else if d == 3 {
        "3"
    } else if d == 4 {
        "4"
    } else if d == 5 {
        "5"
    } else if d == 6 {
        "6"
    } else if d == 7 {
        "7"
    } else if d == 8 {
        "8"
    } else {
        "9"
    };
    assert(text@ =~= seq![digit_char(d as int)]);
    text
}

/// The value of a decimal digit, or `None` for any other character.
fn digit_of(c: char) -> (d: Option<u64>)
    ensures
        d.is_some() == is_digit(c),
        d.is_some() ==> d.unwrap() == (c as int) - ('0' as int),
{
    if c == '0' {
        Some(0)
    } else if c == '1' {
        Some(1)
    } else if c == '2' {
        Some(2)
    } else if c == '3' {
        Some(3)
    } else if c == '4' {
        Some(4)
    } else if c == '5' {
        Some(5)
    } else if c == '6' {
        Some(6)
    } else if c == '7' {
        Some(7)
    } else if c == '8' {
        Some(8)
    } else if c == '9' {
        Some(9)
    } else {
        None
    }
}

/// The decimal text of `v`.
pub fn u64_text(v: u64) -> (text: String)
    ensures
        text@ == decimal_text(v as int),
{
    let mut text: String = digit_str(v % 10).to_owned();
    let mut rest: u64 = v / 10;
    while rest > 0
        invariant
            rest > 0 ==> digits_text(v as nat) == digits_text(rest as nat) + text@,
            rest == 0 ==> digits_text(v as nat) == text@,
        decreases rest,
    {
        let head: String = digit_str(rest % 10).to_owned();
        proof {
            if rest >= 10 {
                assert(digits_text(rest as nat) + text@ =~= digits_text((rest / 10) as nat) + (head@
                    + text@));
            } else {
                assert(digits_text(rest as nat) + text@ =~= head@ + text@);
            }
        }
        text = head.concat(text.as_str());
        rest = rest / 10;
    }
    text
}

/// The decimal text of `v`, with a leading `-` below zero.
pub fn i64_text(v: i64) -> (text: String)
    ensures
        text@ == decimal_text(v as int),
{
    if v >= 0 {
        u64_text(v as u64)
    } else {
        proof {
            reveal_strlit("-");
        }
        assert("-"@ =~= seq!['-']);
        let magnitude: u64 = (-(v as i128)) as u64;
        let digits: String = u64_text(magnitude);
        let sign: String = "-".to_owned();
        sign.concat(digits.as_str())
    }
}

/// Reads the digits of `text` from character `from` to the end: their value
/// where they are digits only, at least one, and spell no more than `max`.
pub fn parse_digits(text: &str, from: usize, max: u64) -> (value: Option<u64>)
    requires
        from <= text@.len(),
    ensures
        match value {
            Some(v) => is_digits(text@.skip(from as int)) && digits_value(text@.skip(from as int)) == v
                && v <= max,
            None => !(is_digits(text@.skip(from as int)) && digits_value(text@.skip(from as int))
                <= max),
        },
{
    let n: usize = text.unicode_len();
    if from >= n {
        return None;
    }
    let ghost body = text@.skip(from as int);
    let mut acc: u64 = 0;
    let mut i: usize = from;
    assert(body.take(0) =~= Seq::<char>::empty());
    while i < n
        invariant
            from <= i <= n,
            from < n,
            n == text@.len(),
            body == text@.skip(from as int),
            acc == digits_value(body.take(i - from)),
            acc <= max,
            forall|j: int| 0 <= j < i - from ==> is_digit(#[trigger] body[j]),
        decreases n - i,
    {
        let c: char = text.get_char(i);
        assert(body[i - from] == c);
        let d: u64 = match digit_of(c) {
            Some(d) => d,
            None => {
                return None;
            },
        };
        proof {
            let next = body.take(i - from + 1);
            assert(next.drop_last() =~= body.take(i - from));
            assert(next.last() == c);
            assert(digits_value(next) == acc * 10 + d);
            if is_digits(body) {
                lemma_digits_value_grows(body, i - from + 1);
            }
        }
        if d > max || acc > (max - d) / 10 {
            return None;
        }
        acc = acc * 10 + d;
        i = i + 1;
    }
    assert(body.take(n - from) =~= body);
    Some(acc)
}

/// Reads an unsigned decimal that fits 64 bits: an optional `+`, then digits
/// only.
pub fn parse_u64(text: &str) -> (value: Option<u64>)
    ensures
        match value {
            Some(v) => parse_unsigned(text@, u64::MAX as int) == Some(v as int),
            None => parse_unsigned(text@, u64::MAX as int).is_none(),
        },
{
    let n: usize = text.unicode_len();
    let signed: bool = n > 0 && text.get_char(0) == '+';
    assert(text@.skip(0) =~= text@);
    if signed {
        parse_digits(text, 1, u64::MAX)
    } else {
        parse_digits(text, 0, u64::MAX)
    }
}

/// Reads an unsigned decimal that fits a `usize`: an optional `+`, then
/// digits only.
pub fn parse_usize(text: &str) -> (value: Option<usize>)
    ensures
        match value {
            Some(v) => parse_unsigned(text@, usize::MAX as int) == Some(v as int),
            None => parse_unsigned(text@, usize::MAX as int).is_none(),
        },
{
    let n: usize = text.unicode_len();
    let signed: bool = n > 0 && text.get_char(0) == '+';
    assert(text@.skip(0) =~= text@);
    let parsed: Option<u64> = if signed {
        parse_digits(text, 1, usize::MAX as u64)
    } else {
        parse_digits(text, 0, usize::MAX as u64)
    };
    match parsed {
        Some(v) => Some(v as usize),
        None => None,
    }
}

/// Reads a signed decimal that fits 64 bits: an optional `+` or `-`, then
/// digits only.
pub fn parse_i64(text: &str) -> (value: Option<i64>)
    ensures
        match value {
            Some(v) => parse_signed(text@, i64::MIN as int, i64::MAX as int) == Some(v as int),
            None => parse_signed(text@, i64::MIN as int, i64::MAX as int).is_none(),
        },
{
    let n: usize = text.unicode_len();
    assert(text@.skip(0) =~= text@);
    if n == 0 {
        return None;
    }
    let first: char = text.get_char(0);
    if first == '-' {
        match parse_digits(text, 1, 0x8000_0000_0000_0000) {
            Some(magnitude) => {
                if magnitude == 0x8000_0000_0000_0000 {
                    Some(i64::MIN)
                } else {
                    Some(-(magnitude as i64))
                }
            },
            None => None,
        }
    } else if first == '+' {
        match parse_digits(text, 1, 0x7FFF_FFFF_FFFF_FFFF) {
            Some(magnitude) => Some(magnitude as i64),
            None => None,
        }
    } else {
        match parse_digits(text, 0, 0x7FFF_FFFF_FFFF_FFFF) {
            Some(magnitude) => Some(magnitude as i64),
            None => None,
        }
    }
}

/// More digits never spell a smaller number: a run of digits is worth at
/// least as much as any of its beginnings.
pub proof fn lemma_digits_value_grows(text: Seq<char>, k: int)
    requires
        0 <= k <= text.len(),
        forall|i: int| 0 <= i < text.len() ==> is_digit(#[trigger] text[i]),
    ensures
        digits_value(text.take(k)) <= digits_value(text),
    decreases text.len(),
{
    if k == text.len() {
        assert(text.take(k) =~= text);
    } else {
        let front = text.drop_last();
        assert(front.take(k) =~= text.take(k));
        assert forall|i: int| 0 <= i < front.len() implies is_digit(#[trigger] front[i]) by {
            assert(front[i] == text[i]);
        }
        lemma_digits_value_grows(front, k);
        assert(is_digit(text[text.len() - 1]));
    }
}

/// The index of the first `sep` in `text`, or the length of `text` if it
/// holds none.
pub open spec fn first_sep(text: Seq<char>, sep: char) -> int
    decreases text.len(),
{
    if text.len() == 0 {
        0
    } else if text[0] == sep {
        0
    } else {
        1 + first_sep(text.skip(1), sep)
    }
}

/// The fields of `text`: the pieces between the occurrences of `sep`, in
/// order. Text without `sep` is one field; `n` separators make `n + 1`
/// fields, empty ones included.
pub open spec fn fields(text: Seq<char>, sep: char) -> Seq<Seq<char>>
    decreases text.len(),
{
    let at = first_sep(text, sep);
    if 0 <= at < text.len() {
        seq![text.take(at)] + fields(text.skip(at + 1), sep)
    } else {
        seq![text]
    }
}

/// The fields of `parts`, each taken by its characters.
pub open spec fn field_views(parts: Seq<&str>) -> Seq<Seq<char>> {
    Seq::new(parts.len(), |i: int| parts[i]@)
}

/// `first_sep` is the least index that holds `sep`.
pub proof fn lemma_first_sep(text: Seq<char>, sep: char, at: int)
    requires
        0 <= at <= text.len(),
        forall|i: int| 0 <= i < at ==> text[i] != sep,
        at < text.len() ==> text[at] == sep,
    ensures
        first_sep(text, sep) == at,
    decreases text.len(),
{
    if at > 0 {
        let rest = text.skip(1);
        assert forall|i: int| 0 <= i < at - 1 implies rest[i] != sep by {
            assert(rest[i] == text[i + 1]);
        }
        lemma_first_sep(rest, sep, at - 1);
    }
}

/// Text that holds no `sep` is a single field.
pub proof fn lemma_fields_single(text: Seq<char>, sep: char)
    requires
        !text.contains(sep),
    ensures
        fields(text, sep) == seq![text],
{
    assert forall|i: int| 0 <= i < text.len() implies text[i] != sep by {
        assert(text.contains(text[i]));
    }
    lemma_first_sep(text, sep, text.len() as int);
}

/// A field without `sep`, a separator, and more text: the fields are that
/// field and then the fields of the rest.
pub proof fn lemma_fields_cons(head: Seq<char>, sep: char, rest: Seq<char>)
    requires
        !head.contains(sep),
    ensures
        fields(head + seq![sep] + rest, sep) == seq![head] + fields(rest, sep),
{
    let text = head + seq![sep] + rest;
    assert forall|i: int| 0 <= i < head.len() implies text[i] != sep by {
        assert(head.contains(head[i]));
    }
    lemma_first_sep(text, sep, head.len() as int);
    assert(text.take(head.len() as int) =~= head);
    assert(text.skip(head.len() as int + 1) =~= rest);
}

/// Cuts `text` into its fields at each `sep`.
pub fn split_fields<'a>(text: &'a str, sep: char) -> (parts: Vec<&'a str>)
    ensures
        field_views(parts@) == fields(text@, sep),
{
    let n: usize = text.unicode_len();
    let mut parts: Vec<&'a str> = Vec::new();
    let mut start: usize = 0;
    let mut i: usize = 0;
    assert(text@.skip(0) =~= text@);
    assert(field_views(parts@) =~= Seq::<Seq<char>>::empty());
    while i < n
        invariant
            start <= i <= n,
            n == text@.len(),
            forall|j: int| start <= j < i ==> text@[j] != sep,
            fields(text@, sep) == field_views(parts@) + fields(text@.skip(start as int), sep),
        decreases n - i,
    {
        let c: char = text.get_char(i);
        if c == sep {
            let piece: &'a str = text.substring_char(start, i);
            proof {
                let tail = text@.skip(start as int);
                assert forall|j: int| 0 <= j < i - start implies tail[j] != sep by {
                    assert(tail[j] == text@[start + j]);
                }
                lemma_first_sep(tail, sep, i - start);
                assert(tail.take(i - start) =~= text@.subrange(start as int, i as int));
                assert(tail.skip(i - start + 1) =~= text@.skip(i + 1));
                assert(field_views(parts@.push(piece)) =~= field_views(parts@) + seq![piece@]);
            }
            parts.push(piece);
            start = i + 1;
        }
        i = i + 1;
    }
    let last: &'a str = text.substring_char(start, n);
    proof {
        let tail = text@.skip(start as int);
        assert forall|j: int| 0 <= j < n - start implies tail[j] != sep by {
            assert(tail[j] == text@[start + j]);
        }
        lemma_first_sep(tail, sep, n - start);
        assert(tail =~= text@.subrange(start as int, n as int));
        assert(field_views(parts@.push(last)) =~= field_views(parts@) + seq![last@]);
    }
    parts.push(last);
    parts
}

/// The digits of a number are digits, and spell that number.
pub proof fn lemma_digits_round_trip(n: nat)
    ensures
        is_digits(digits_text(n)),
        digits_value(digits_text(n)) == n,
    decreases n,
{
    let text = digits_text(n);
    if n < 10 {
        assert(text.drop_last() =~= Seq::<char>::empty());
        assert(digits_value(text.drop_last()) == 0);
    } else {
        lemma_digits_round_trip(n / 10);
        assert(text.drop_last() =~= digits_text(n / 10));
        assert(text.last() == digit_char((n % 10) as int));
    }
}

/// Reading back the decimal text of a number within the bounds gives the
/// number.
pub proof fn lemma_decimal_round_trip(v: int, min: int, max: int)
    requires
        min <= v <= max,
    ensures
        parse_signed(decimal_text(v), min, max) == Some(v),
        v >= 0 ==> parse_unsigned(decimal_text(v), max) == Some(v),
{
    if v < 0 {
        lemma_digits_round_trip((-v) as nat);
        assert(decimal_text(v).skip(1) =~= digits_text((-v) as nat));
    } else {
        lemma_digits_round_trip(v as nat);
        assert(is_digit(digits_text(v as nat)[0]));
    }
}

/// Decimal text holds digits and `-` only.
pub proof fn lemma_decimal_text_avoids(v: int, c: char)
    requires
        !is_digit(c),
        c != '-',
    ensures
        !decimal_text(v).contains(c),
{
    let n = if v < 0 {
        (-v) as nat
    } else {
        v as nat
    };
    lemma_digits_round_trip(n);
    let text = decimal_text(v);
    assert forall|i: int| 0 <= i < text.len() implies text[i] != c by {
        if v < 0 && i > 0 {
            assert(text[i] == digits_text(n)[i - 1]);
            assert(is_digit(digits_text(n)[i - 1]));
        } else if v >= 0 {
            assert(is_digit(digits_text(n)[i]));
        }
    }
}

} // verus!
