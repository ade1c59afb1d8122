//! Numbers as text and back, character by character.
use vstd::prelude::*;
use vstd::string::{StrSliceExecFns, StringExecFns};

verus! {

/// The character of one digit, in lower case.
pub open spec fn digit_char(digit: nat) -> char {
    if digit < 10 {
        (('0' as u32) + digit) as char
    } else {
        (('a' as u32) + digit - 10) as char
    }
}

/// The value of one digit of base `radix`, in either case, where it is one.
pub open spec fn digit_value(c: char, radix: nat) -> Option<nat> {
    let value: int = if '0' <= c <= '9' {
        c as int - '0' as int
    } else if 'a' <= c <= 'z' {
        c as int - 'a' as int + 10
    } else if 'A' <= c <= 'Z' {
        c as int - 'A' as int + 10
    } else {
        radix as int
    };
    if value < radix {
        Some(value as nat)
    } else {
        None
    }
}

/// `number` in decimal, without leading zeros.
pub open spec fn decimal(number: nat) -> Seq<char>
    decreases number,
{
    if number < 10 {
        seq![digit_char(number)]
    } else {
        decimal(number / 10).push(digit_char(number % 10))
    }
}

/// `number` in `width` hexadecimal digits.
pub open spec fn hex(number: nat, width: nat) -> Seq<char>
    decreases width,
{
    if width == 0 {
        seq![]
    } else {
        hex(number / 16, (width - 1) as nat).push(digit_char(number % 16))
    }
}

/// The value of `digits` in base `radix`, where they all are digits.
pub open spec fn digits_value(digits: Seq<char>, radix: nat) -> Option<nat>
    decreases digits.len(),
{
    if digits.len() == 0 {
        Some(0)
    } else {
        match (digits_value(digits.drop_last(), radix), digit_value(digits.last(), radix)) {
            (Some(high), Some(low)) => Some(high * radix + low),
            _ => None,
        }
    }
}

/// `text` without a plus sign in front.
pub open spec fn unsigned(text: Seq<char>) -> Seq<char> {
    if text.len() > 0 && text[0] == '+' {
        text.skip(1)
    } else {
        text
    }
}

/// The number that `text` is in base `radix`: an optional plus sign and at
/// least one digit, and no more than `most`.
pub open spec fn number_of(text: Seq<char>, radix: nat, most: nat) -> Option<nat> {
    if unsigned(text).len() == 0 {
        None
    } else {
        match digits_value(unsigned(text), radix) {
            Some(value) if value <= most => Some(value),
            _ => None,
        }
    }
}

/// How many characters stand before the first `c`; all of them where there is
/// none.
pub open spec fn before(text: Seq<char>, c: char) -> nat
    decreases text.len(),
{
    if text.len() == 0 || text[0] == c {
        0
    } else {
        1 + before(text.skip(1), c)
    }
}

/// How many characters stand behind the last `c`; all of them where there is
/// none.
pub open spec fn behind(text: Seq<char>, c: char) -> nat
    decreases text.len(),
{
    if text.len() == 0 || text.last() == c {
        0
    } else {
        1 + behind(text.drop_last(), c)
    }
}

/// `text` begins with `start`.
pub open spec fn starts_with(text: Seq<char>, start: Seq<char>) -> bool {
    start.len() <= text.len() && text.take(start.len() as int) == start
}

/// The characters of `text`.
pub(crate) fn chars_of(text: &str) -> (chars: Vec<char>)
    ensures
        chars@ == text@,
{
    let mut chars: Vec<char> = Vec::new();
    let count = text.unicode_len();
    while chars.len() < count
        invariant
            chars@.len() <= count,
            count == text@.len(),
            chars@ == text@.take(chars@.len() as int),
        decreases count - chars@.len(),
    {
        let c = text.get_char(chars.len());
        chars.push(c);
        assert(chars@ =~= text@.take(chars@.len() as int));
    }
    assert(chars@ =~= text@);
    chars
}

/// Adds one digit at the end of `out`.
pub(crate) fn push_digit(out: &mut String, digit: u8)
    requires
        digit < 16,
    ensures
        final(out)@ == old(out)@.push(digit_char(digit as nat)),
{
    let text = match digit {
        0 => "0",
        1 => "1",
        2 => "2",
        3 => "3",
        4 => "4",
        5 => "5",
        6 => "6",
        7 => "7",
        8 => "8",
        9 => "9",
        10 => "a",
        11 => "b",
        12 => "c",
        13 => "d",
        14 => "e",
        _ => "f",
    };
    proof {
        reveal_strlit("0");
        reveal_strlit("1");
        reveal_strlit("2");
        reveal_strlit("3");
        reveal_strlit("4");
        reveal_strlit("5");
        reveal_strlit("6");
        reveal_strlit("7");
        reveal_strlit("8");
        reveal_strlit("9");
        reveal_strlit("a");
        reveal_strlit("b");
        reveal_strlit("c");
        reveal_strlit("d");
        reveal_strlit("e");
        reveal_strlit("f");
        assert(text@ =~= seq![digit_char(digit as nat)]);
    }
    out.append(text);
    assert(out@ =~= old(out)@.push(digit_char(digit as nat)));
}

/// Adds `number` in decimal at the end of `out`.
pub(crate) fn push_decimal(out: &mut String, number: usize)
    ensures
        final(out)@ == old(out)@ + decimal(number as nat),
    decreases number,
{
    if number >= 10 {
        push_decimal(out, number / 10);
    }
    push_digit(out, (number % 10) as u8);
    assert(out@ =~= old(out)@ + decimal(number as nat));
}

/// Adds `number` in `width` hexadecimal digits at the end of `out`.
pub(crate) fn push_hex(out: &mut String, number: u16, width: u8)
    ensures
        final(out)@ == old(out)@ + hex(number as nat, width as nat),
    decreases width,
{
    if width > 0 {
        push_hex(out, number / 16, width - 1);
        push_digit(out, (number % 16) as u8);
    }
    assert(out@ =~= old(out)@ + hex(number as nat, width as nat));
}

/// How many characters of `text` stand before the first `c`.
pub(crate) fn count_before(text: &[char], c: char) -> (count: usize)
    ensures
        count == before(text@, c),
        count <= text@.len(),
        count < text@.len() ==> text@[count as int] == c,
{
    let mut at: usize = 0;
    assert(text@.skip(0) =~= text@);
    while at < text.len() && text[at] != c
        invariant
            at <= text@.len(),
            before(text@, c) == at + before(text@.skip(at as int), c),
        decreases text@.len() - at,
    {
        assert(text@.skip(at as int).skip(1) =~= text@.skip(at + 1));
        at += 1;
    }
    at
}

/// How many characters of `text` stand behind the last `c`.
pub(crate) fn count_behind(text: &[char], c: char) -> (count: usize)
    ensures
        count == behind(text@, c),
        count <= text@.len(),
{
    let mut left: usize = text.len();
    assert(text@.take(left as int) =~= text@);
    while left > 0 && text[left - 1] != c
        invariant
            left <= text@.len(),
            behind(text@, c) == text@.len() - left + behind(text@.take(left as int), c),
        decreases left,
    {
        assert(text@.take(left as int).drop_last() =~= text@.take(left - 1));
        left -= 1;
    }
    text.len() - left
}

/// `text` begins with `start`.
pub(crate) fn begins(text: &[char], start: &[char]) -> (yes: bool)
    ensures
        yes == starts_with(text@, start@),
{
    if text.len() < start.len() {
        return false;
    }
    let mut at: usize = 0;
    while at < start.len()
        invariant
            at <= start@.len() <= text@.len(),
            forall|i: int| 0 <= i < at ==> text@[i] == start@[i],
        decreases start@.len() - at,
    {
        if text[at] != start[at] {
            assert(text@.take(start@.len() as int)[at as int] != start@[at as int]);
            return false;
        }
        at += 1;
    }
    assert(text@.take(start@.len() as int) =~= start@);
    true
}

fn value_of(c: char, radix: u32) -> (value: Option<u32>)
    requires
        radix <= 36,
    ensures
        value matches Some(value) ==> digit_value(c, radix as nat) == Some(value as nat),
        value is None ==> digit_value(c, radix as nat) is None,
{
    let value: u32 = if '0' <= c && c <= '9' {
        c as u32 - '0' as u32
    } else if 'a' <= c && c <= 'z' {
        c as u32 - 'a' as u32 + 10
    } else if 'A' <= c && c <= 'Z' {
        c as u32 - 'A' as u32 + 10
    } else {
        radix
    };
    if value < radix {
        Some(value)
    } else {
        None
    }
}

/// What is too much after some digits is too much after more of them.
proof fn lemma_value_grows(digits: Seq<char>, count: int, radix: nat)
    requires
        0 <= count <= digits.len(),
        radix >= 1,
    ensures
        digits_value(digits, radix) matches Some(value) ==> {
            &&& digits_value(digits.take(count), radix) matches Some(part)
            &&& part <= value
        },
    decreases digits.len() - count,
{
    if count == digits.len() {
        assert(digits.take(count) =~= digits);
    } else {
        lemma_value_grows(digits.drop_last(), count, radix);
        assert(digits.drop_last().take(count) =~= digits.take(count));
        if let Some(high) = digits_value(digits.drop_last(), radix) {
            assert(high <= high * radix) by (nonlinear_arith)
                requires
                    radix >= 1,
            ;
        }
    }
}

/// The number that `text` is in base `radix`, no more than `most`.
pub(crate) fn parse(text: &[char], radix: u32, most: u32) -> (number: Option<u32>)
    requires
        1 <= radix <= 36,
        most <= 0xffff,
    ensures
        number matches Some(number) ==> number_of(text@, radix as nat, most as nat) == Some(
            number as nat,
        ),
        number is None ==> number_of(text@, radix as nat, most as nat) is None,
{
    let from: usize = if text.len() > 0 && text[0] == '+' {
        1
    } else {
        0
    };
    let ghost digits = unsigned(text@);
    assert(digits =~= text@.skip(from as int));
    if from == text.len() {
        return None;
    }
    let mut value: u32 = 0;
    let mut at: usize = from;
    while at < text.len()
        invariant
            from <= at <= text@.len(),
            1 <= radix <= 36,
            value <= most <= 0xffff,
            digits == text@.skip(from as int),
            digits == unsigned(text@),
            digits_value(digits.take(at - from), radix as nat) == Some(value as nat),
        decreases text@.len() - at,
    {
        proof {
            lemma_value_grows(digits, at + 1 - from, radix as nat);
            assert(digits.take(at + 1 - from).drop_last() =~= digits.take(at - from));
            assert(digits.take(at + 1 - from).last() == text@[at as int]);
        }
        let low = match value_of(text[at], radix) {
            Some(low) => low,
            None => return None,
        };
        assert(value * radix <= 0xffff * 36) by (nonlinear_arith)
            requires
                value <= 0xffff,
                radix <= 36,
        ;
        let next = value * radix + low;
        if next > most {
            return None;
        }
        value = next;
        at += 1;
    }
    assert(digits.take(at - from) =~= digits);
    Some(value)
}

/// A digit reads back as its value, and is neither sign nor stroke.
proof fn lemma_digit(digit: nat, radix: nat)
    requires
        digit < radix <= 16,
    ensures
        digit_value(digit_char(digit), radix) == Some(digit),
        digit_char(digit) != '+',
        digit_char(digit) != '/',
{
}

/// How many numbers `width` hexadecimal digits can write.
pub open spec fn hex_range(width: nat) -> nat
    decreases width,
{
    if width == 0 {
        1
    } else {
        16 * hex_range((width - 1) as nat)
    }
}

/// What is written in decimal reads back as the same number.
pub proof fn law_decimal_reads_back(number: nat)
    ensures
        digits_value(decimal(number), 10) == Some(number),
        decimal(number).len() > 0,
        forall|i: int|
            #![trigger decimal(number)[i]]
            0 <= i < decimal(number).len() ==> decimal(number)[i] != '+' && decimal(number)[i]
                != '/',
    decreases number,
{
    lemma_digit(number % 10, 10);
    if number < 10 {
        assert(decimal(number).drop_last() =~= seq![]);
        assert(digits_value(decimal(number).drop_last(), 10) == Some(0nat));
    } else {
        law_decimal_reads_back(number / 10);
        assert(decimal(number).drop_last() =~= decimal(number / 10));
    }
}

/// What is written in hexadecimal reads back as the same number, wherever the
/// digits are enough for it.
pub proof fn law_hex_reads_back(number: nat, width: nat)
    requires
        number < hex_range(width),
    ensures
        digits_value(hex(number, width), 16) == Some(number),
        hex(number, width).len() == width,
        forall|i: int|
            #![trigger hex(number, width)[i]]
            0 <= i < width ==> hex(number, width)[i] != '+' && hex(number, width)[i] != '/',
    decreases width,
{
    if width > 0 {
        lemma_digit(number % 16, 16);
        law_hex_reads_back(number / 16, (width - 1) as nat);
        assert(hex(number, width).drop_last() =~= hex(number / 16, (width - 1) as nat));
    }
}

/// Where the first `c` stands.
pub proof fn lemma_before(first: Seq<char>, c: char, rest: Seq<char>)
    requires
        !first.contains(c),
    ensures
        before(first.push(c) + rest, c) == first.len(),
    decreases first.len(),
{
    let whole = first.push(c) + rest;
    if first.len() > 0 {
        assert(first.contains(first[0]));
        assert forall|i: int| 0 <= i < first.skip(1).len() implies first.skip(1)[i] != c by {
            assert(first.contains(first[i + 1]));
        }
        lemma_before(first.skip(1), c, rest);
        assert(whole.skip(1) =~= first.skip(1).push(c) + rest);
    }
}

/// Where the last `c` stands.
pub proof fn lemma_behind(first: Seq<char>, c: char, rest: Seq<char>)
    requires
        !rest.contains(c),
    ensures
        behind(rest, c) == rest.len(),
        behind(first.push(c) + rest, c) == rest.len(),
    decreases rest.len(),
{
    let whole = first.push(c) + rest;
    if rest.len() > 0 {
        let less = rest.drop_last();
        assert(rest.contains(rest.last()));
        assert forall|i: int| 0 <= i < less.len() implies less[i] != c by {
            assert(rest.contains(rest[i]));
        }
        lemma_behind(first, c, less);
        assert(whole.drop_last() =~= first.push(c) + less);
    } else {
        assert(whole.last() == c);
    }
}

/// What stands before the first `c` is no `c`, and the first `c` is one.
pub proof fn lemma_before_is_first(text: Seq<char>, c: char)
    ensures
        before(text, c) <= text.len(),
        before(text, c) < text.len() ==> text[before(text, c) as int] == c,
        before(text, c) == text.len() <==> !text.contains(c),
        forall|i: int| 0 <= i < before(text, c) ==> text[i] != c,
    decreases text.len(),
{
    if text.len() > 0 && text[0] != c {
        let rest = text.skip(1);
        lemma_before_is_first(rest, c);
        assert forall|i: int| 0 <= i < before(text, c) implies text[i] != c by {
            if i > 0 {
                assert(rest[i - 1] == text[i]);
            }
        }
        if before(rest, c) < rest.len() {
            assert(text[before(text, c) as int] == rest[before(rest, c) as int]);
        } else {
            assert forall|i: int| 0 <= i < text.len() implies text[i] != c by {}
        }
    }
}

/// `text` in quotes, with what cannot be printed in it escaped: what std's
/// `{:?}` makes of a string.
pub uninterp spec fn quoted(text: Seq<char>) -> Seq<char>;

/// `text` as std's `{:?}` writes it (`Debug` of `str`, through `format!`).
/// Nothing is claimed of it but that it depends on the text alone: the
/// characters that are escaped, and how, are left to std.
#[verifier::external_body]
pub(crate) fn quote(text: &str) -> (out: String)
    ensures
        out@ == quoted(text@),
{
    format!("{:?}", text)
}

/// The digits: ten figures, and letters of either case from ten on.
pub proof fn law_digit_values(c: char)
    ensures
        digit_value(c, 10) == if '0' <= c <= '9' {
            Some((c as int - 48) as nat)
        } else {
            None
        },
        digit_value(c, 16) == if '0' <= c <= '9' {
            Some((c as int - 48) as nat)
        } else if 'a' <= c <= 'f' {
            Some((c as int - 87) as nat)
        } else if 'A' <= c <= 'F' {
            Some((c as int - 55) as nat)
        } else {
            None
        },
{
}

/// The value of a place: one more digit counts once and makes every digit
/// before it count `radix` times more; and what is no digit spoils the number.
pub proof fn law_place_value(digits: Seq<char>, last: char, radix: nat)
    ensures
        digits_value(seq![], radix) == Some(0nat),
        digits_value(digits.push(last), radix) is Some <==> digits_value(digits, radix) is Some
            && digit_value(last, radix) is Some,
        digits_value(digits.push(last), radix) is Some ==> digits_value(digits.push(last), radix)->0
            == digits_value(digits, radix)->0 * radix + digit_value(last, radix)->0,
{
    assert(digits.push(last).drop_last() =~= digits);
}

/// What is written in hexadecimal is written in figures and small letters.
pub proof fn law_hex_is_small(number: nat, width: nat)
    ensures
        hex(number, width).len() == width,
        forall|i: int|
            0 <= i < width ==> '0' <= #[trigger] hex(number, width)[i] <= '9' || 'a' <= hex(
                number,
                width,
            )[i] <= 'f',
    decreases width,
{
    if width > 0 {
        law_hex_is_small(number / 16, (width - 1) as nat);
    }
}

/// What is written in decimal is written in figures, and begins with a zero
/// only where it is zero.
pub proof fn law_decimal_is_short(number: nat)
    ensures
        decimal(number).len() > 0,
        decimal(number)[0] == '0' ==> number == 0,
        forall|i: int|
            0 <= i < decimal(number).len() ==> '0' <= #[trigger] decimal(number)[i] <= '9',
    decreases number,
{
    if number >= 10 {
        law_decimal_is_short(number / 10);
    }
}

/// What is a number: digits, at least one of them, whose value is no more than
/// `most`; and the same with one plus sign before them.
pub proof fn law_what_is_a_number(digits: Seq<char>, radix: nat, most: nat)
    requires
        digits.len() > 0 ==> digits[0] != '+',
    ensures
        number_of(digits, radix, most) == number_of(seq!['+'] + digits, radix, most),
        number_of(digits, radix, most) is Some <==> digits.len() > 0 && digits_value(
            digits,
            radix,
        ) is Some && digits_value(digits, radix)->0 <= most,
        number_of(digits, radix, most) is Some ==> number_of(digits, radix, most) == digits_value(
            digits,
            radix,
        ),
{
    assert((seq!['+'] + digits).skip(1) =~= digits);
}

/// Whatever is no digit spoils a number, wherever it stands: a second sign, a
/// stroke, a letter beyond the base.
pub proof fn law_no_digit_no_number(digits: Seq<char>, at: int, radix: nat)
    requires
        0 <= at < digits.len(),
        digit_value(digits[at], radix) is None,
    ensures
        digits_value(digits, radix) is None,
    decreases digits.len(),
{
    if at < digits.len() - 1 {
        law_no_digit_no_number(digits.drop_last(), at, radix);
    }
}

} // verus!
