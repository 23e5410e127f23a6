//! The text form of a node and one of its objects: `<node>/0x<index>/<sub>`,
//! the numbers in decimal but for the index, which is hexadecimal.

use vstd::prelude::*;

use crate::text::{decimal, digit, hexadecimal, push_decimal, push_hexadecimal};

verus! {

/// The value of a digit in either case, whatever the base.
pub open spec fn digit_value(c: char) -> Option<nat> {
    if '0' <= c <= '9' {
        Some((c as int - '0' as int) as nat)
    } else if 'a' <= c <= 'z' {
        Some((c as int - 'a' as int + 10) as nat)
    } else if 'A' <= c <= 'Z' {
        Some((c as int - 'A' as int + 10) as nat)
    } else {
        None
    }
}

/// Whether a character is a digit of a base.
pub open spec fn is_digit(c: char, base: nat) -> bool {
    digit_value(c) matches Some(value) && value < base
}

/// The value of a string of digits.
pub open spec fn magnitude(digits: Seq<char>, base: nat) -> nat
    decreases digits.len(),
{
    if digits.len() == 0 {
        0
    } else {
        base * magnitude(digits.drop_last(), base) + digit_value(digits.last()).unwrap_or(0)
    }
}

/// A string without the plus sign it may begin with.
pub open spec fn unsigned(text: Seq<char>) -> Seq<char> {
    if text.len() > 0 && text[0] == '+' { text.skip(1) } else { text }
}

/// The number up to `max` that a string says: digits, at least one of them,
/// behind an optional plus sign.
pub open spec fn number(text: Seq<char>, base: nat, max: nat) -> Option<nat> {
    let digits = unsigned(text);
    if digits.len() > 0 && (forall|i: int|
        0 <= i < digits.len() ==> is_digit(#[trigger] digits[i], base)) && magnitude(digits, base)
        <= max {
        Some(magnitude(digits, base))
    } else {
        None
    }
}

/// Where the first slash is, or the end.
pub open spec fn cut(text: Seq<char>) -> nat
    decreases text.len(),
{
    if text.len() == 0 || text[0] == '/' {
        0
    } else {
        1 + cut(text.skip(1))
    }
}

/// The parts between the slashes.
pub open spec fn parts(text: Seq<char>) -> Seq<Seq<char>>
    decreases text.len(),
{
    if cut(text) >= text.len() {
        seq![text]
    } else {
        seq![text.take(cut(text) as int)] + parts(text.skip(cut(text) as int + 1))
    }
}

/// The node, index and subindex that a path says, if it is
/// `<node>/0x<index>/<sub>`.
pub open spec fn address(path: Seq<char>) -> Option<(u8, u16, u8)> {
    let parts = parts(path);
    if parts.len() == 3 && parts[1].len() >= 2 && parts[1][0] == '0' && parts[1][1] == 'x' {
        match (
            number(parts[0], 10, 255),
            number(parts[1].skip(2), 16, 65535),
            number(parts[2], 10, 255),
        ) {
            (Some(node), Some(index), Some(subindex)) => Some(
                (node as u8, index as u16, subindex as u8),
            ),
            _ => None,
        }
    } else {
        None
    }
}

/// The path of a node's object.
pub open spec fn path(node: u8, index: u16, subindex: u8) -> Seq<char> {
    decimal(node as nat) + "/0x"@ + hexadecimal(index as nat, 4) + "/"@ + decimal(subindex as nat)
}

fn digit_of(c: char) -> (value: Option<u32>)
    ensures
        match value {
            Some(value) => digit_value(c) == Some(value as nat) && value < 36,
            None => digit_value(c) is None,
        },
{
    if '0' <= c && c <= '9' {
        Some(c as u32 - '0' as u32)
    } else if 'a' <= c && c <= 'z' {
        Some(c as u32 - 'a' as u32 + 10)
    } else if 'A' <= c && c <= 'Z' {
        Some(c as u32 - 'A' as u32 + 10)
    } else {
        None
    }
}

/// A string is worth at least what its front is worth.
proof fn lemma_front(digits: Seq<char>, base: nat, n: int)
    requires
        0 <= n <= digits.len(),
        base >= 1,
    ensures
        magnitude(digits.take(n), base) <= magnitude(digits, base),
    decreases digits.len(),
{
    if n == digits.len() {
        assert(digits.take(n) =~= digits);
    } else {
        lemma_front(digits.drop_last(), base, n);
        assert(digits.drop_last().take(n) =~= digits.take(n));
        let rest = magnitude(digits.drop_last(), base);
        assert(base * rest >= rest) by (nonlinear_arith)
            requires
                base >= 1,
        ;
    }
}

/// The number up to `max` that the characters say.
fn parse(text: &Vec<char>, from: usize, base: u32, max: u32) -> (value: Option<u32>)
    requires
        from <= text@.len(),
        2 <= base <= 36,
        max <= 65535,
    ensures
        match value {
            Some(value) => number(text@.skip(from as int), base as nat, max as nat) == Some(
                value as nat,
            ) && value <= max,
            None => number(text@.skip(from as int), base as nat, max as nat) is None,
        },
{
    let mut start: usize = from;
    if start < text.len() && text[start] == '+' {
        start = start + 1;
    }
    let ghost digits = unsigned(text@.skip(from as int));
    assert(digits =~= text@.skip(start as int));
    if start == text.len() {
        return None;
    }
    let mut total: u32 = 0;
    let mut i: usize = start;
    while i < text.len()
        invariant
            start <= i <= text@.len(),
            start < text@.len(),
            2 <= base <= 36,
            max <= 65535,
            total <= max,
            digits == unsigned(text@.skip(from as int)),
            digits == text@.skip(start as int),
            total == magnitude(digits.take(i - start), base as nat),
            forall|j: int| 0 <= j < i - start ==> is_digit(#[trigger] digits[j], base as nat),
        decreases text@.len() - i,
    {
        let ghost n = i - start;
        assert(digits[n] == text@[i as int]);
        assert(digits.take(n + 1).drop_last() =~= digits.take(n));
        assert(digits.take(n + 1).last() == digits[n]);
        match digit_of(text[i]) {
            Some(value) => {
                if value >= base {
                    assert(!is_digit(digits[n], base as nat));
                    return None;
                }
                assert(base * total <= 36 * 65535) by (nonlinear_arith)
                    requires
                        base <= 36,
                        total <= 65535,
                ;
                total = base * total + value;
                if total > max {
                    proof {
                        lemma_front(digits, base as nat, n + 1);
                    }
                    return None;
                }
            },
            None => {
                assert(!is_digit(digits[n], base as nat));
                return None;
            },
        }
        i = i + 1;
    }
    assert(digits.take(i - start) =~= digits);
    Some(total)
}

/// What precedes a slash is a part when there is no slash in it.
proof fn lemma_cut(front: Seq<char>, rest: Seq<char>)
    requires
        forall|i: int| 0 <= i < front.len() ==> #[trigger] front[i] != '/',
    ensures
        cut(front) == front.len(),
        parts(front) == seq![front],
        parts(front + seq!['/'] + rest) == seq![front] + parts(rest),
    decreases front.len(),
{
    let text = front + seq!['/'] + rest;
    lemma_cut_at(front, rest);
    assert(text.take(front.len() as int) =~= front);
    assert(text.skip(front.len() as int + 1) =~= rest);
}

proof fn lemma_cut_at(front: Seq<char>, rest: Seq<char>)
    requires
        forall|i: int| 0 <= i < front.len() ==> #[trigger] front[i] != '/',
    ensures
        cut(front) == front.len(),
        cut(front + seq!['/'] + rest) == front.len(),
    decreases front.len(),
{
    let text = front + seq!['/'] + rest;
    if front.len() > 0 {
        assert(text[0] == front[0]);
        assert(text.skip(1) =~= front.skip(1) + seq!['/'] + rest);
        lemma_cut_at(front.skip(1), rest);
    }
}

/// The characters of a string.
fn characters(text: &str) -> (chars: Vec<char>)
    ensures
        chars@ == text@,
{
    let mut chars: Vec<char> = Vec::new();
    for c in it: text.chars()
        invariant
            chars@ == it.seq().take(it.index() as int),
            it.seq() == text@,
    {
        chars.push(c);
        assert(chars@ =~= it.seq().take(it.index() + 1));
    }
    chars
}

/// The parts between the slashes.
fn split(text: &Vec<char>) -> (found: Vec<Vec<char>>)
    ensures
        found@.len() == parts(text@).len(),
        forall|i: int| 0 <= i < found@.len() ==> (#[trigger] found@[i])@ == parts(text@)[i],
{
    let mut found: Vec<Vec<char>> = Vec::new();
    let mut part: Vec<char> = Vec::new();
    let ghost mut seen: Seq<Seq<char>> = seq![];
    let mut i: usize = 0;
    assert(part@ + text@.skip(0) =~= text@);
    assert(seen + parts(text@) =~= parts(text@));
    while i < text.len()
        invariant
            i <= text@.len(),
            forall|j: int| 0 <= j < part@.len() ==> #[trigger] part@[j] != '/',
            found@.len() == seen.len(),
            forall|j: int| 0 <= j < found@.len() ==> (#[trigger] found@[j])@ == seen[j],
            parts(text@) == seen + parts(part@ + text@.skip(i as int)),
        decreases text@.len() - i,
    {
        let c: char = text[i];
        let ghost rest = text@.skip(i + 1);
        if c == '/' {
            proof {
                lemma_cut(part@, rest);
                assert(part@ + text@.skip(i as int) =~= part@ + seq!['/'] + rest);
                assert(seen + (seq![part@] + parts(rest)) =~= seen.push(part@) + parts(rest));
                seen = seen.push(part@);
            }
            found.push(part);
            part = Vec::new();
            assert(part@ + rest =~= rest);
        } else {
            assert(part@ + text@.skip(i as int) =~= part@.push(c) + rest);
            part.push(c);
        }
        i = i + 1;
    }
    proof {
        assert(part@ + text@.skip(i as int) =~= part@);
        lemma_cut(part@, seq![]);
    }
    found.push(part);
    found
}

/// The node, index and subindex that a path says, if it is
/// `<node>/0x<index>/<sub>`.
pub fn parse_address(path: &str) -> (found: Option<(u8, u16, u8)>)
    ensures
        found == address(path@),
{
    let parts = split(&characters(path));
    if parts.len() != 3 {
        return None;
    }
    if parts[1].len() < 2 || parts[1][0] != '0' || parts[1][1] != 'x' {
        return None;
    }
    assert(parts[0]@.skip(0) =~= parts[0]@);
    assert(parts[2]@.skip(0) =~= parts[2]@);
    match (
        parse(&parts[0], 0, 10, 255),
        parse(&parts[1], 2, 16, 65535),
        parse(&parts[2], 0, 10, 255),
    ) {
        (Some(node), Some(index), Some(subindex)) => Some(
            (node as u8, index as u16, subindex as u8),
        ),
        _ => None,
    }
}

/// Write the path of a node's object.
pub fn push_path(text: &mut String, node: u8, index: u16, subindex: u8)
    ensures
        final(text)@ == old(text)@ + path(node, index, subindex),
{
    push_decimal(text, node as u32);
    text.append("/0x");
    push_hexadecimal(text, index as u32, 4);
    text.append("/");
    push_decimal(text, subindex as u32);
    assert(text@ =~= old(text)@ + path(node, index, subindex));
}

proof fn lemma_digit(value: nat)
    requires
        value < 16,
    ensures
        digit(value) != '/',
        digit(value) != '+',
        digit_value(digit(value)) == Some(value),
{
    reveal_strlit("0123456789abcdef");
}

/// A number in decimal is digits and says the number.
proof fn lemma_decimal(value: nat)
    ensures
        decimal(value).len() > 0,
        forall|i: int|
            0 <= i < decimal(value).len() ==> #[trigger] decimal(value)[i] != '/' && decimal(
                value,
            )[i] != '+' && is_digit(decimal(value)[i], 10),
        magnitude(decimal(value), 10) == value,
    decreases value,
{
    lemma_digit(value % 10);
    if value < 10 {
        assert(decimal(value).drop_last() =~= seq![]);
        assert(magnitude(seq![], 10) == 0);
    } else {
        lemma_decimal(value / 10);
        assert(decimal(value).drop_last() =~= decimal(value / 10));
    }
}

/// How many numbers a width of hexadecimal digits can say.
spec fn reach(width: nat) -> nat
    decreases width,
{
    if width == 0 { 1 } else { 16 * reach((width - 1) as nat) }
}

/// A number in hexadecimal is digits and says the number, if it fits.
proof fn lemma_hexadecimal(value: nat, width: nat)
    requires
        value < reach(width),
    ensures
        hexadecimal(value, width).len() == width,
        forall|i: int|
            0 <= i < width ==> #[trigger] hexadecimal(value, width)[i] != '/' && hexadecimal(
                value,
                width,
            )[i] != '+' && is_digit(hexadecimal(value, width)[i], 16),
        magnitude(hexadecimal(value, width), 16) == value,
    decreases width,
{
    if width > 0 {
        lemma_digit(value % 16);
        lemma_hexadecimal(value / 16, (width - 1) as nat);
        assert(hexadecimal(value, width).drop_last() =~= hexadecimal(
            value / 16,
            (width - 1) as nat,
        ));
    }
}

/// A path says the node, index and subindex that it was made of.
pub proof fn law_path_says_its_address(node: u8, index: u16, subindex: u8)
    ensures
        address(path(node, index, subindex)) == Some((node, index, subindex)),
{
    let first = decimal(node as nat);
    let hex = hexadecimal(index as nat, 4);
    let middle = seq!['0', 'x'] + hex;
    let last = decimal(subindex as nat);
    lemma_decimal(node as nat);
    lemma_decimal(subindex as nat);
    reveal_with_fuel(reach, 5);
    lemma_hexadecimal(index as nat, 4);
    reveal_strlit("/0x");
    reveal_strlit("/");
    assert forall|i: int| 0 <= i < middle.len() implies #[trigger] middle[i] != '/' by {
        if i >= 2 {
            assert(middle[i] == hex[i - 2]);
        }
    }
    let tail = middle + seq!['/'] + last;
    assert(path(node, index, subindex) =~= first + seq!['/'] + tail);
    lemma_cut(first, tail);
    lemma_cut(middle, last);
    lemma_cut(last, seq![]);
    assert(parts(path(node, index, subindex)) =~= seq![first, middle, last]);
    assert(middle.skip(2) =~= hex);
    assert(first[0] != '+' && hex[0] != '+' && last[0] != '+');
}

/// A digit counts by its place in `0` to `9`, or in `a` to `z` in either case
/// from ten on, and nothing else is one.
pub proof fn law_digits_count_in_either_case(c: char)
    ensures
        match digit_value(c) {
            Some(value) => {
                ||| value < 10 && c as int == '0' as int + value
                ||| 10 <= value < 36 && c as int == 'a' as int + value - 10
                ||| 10 <= value < 36 && c as int == 'A' as int + value - 10
            },
            None => !('0' <= c <= '9') && !('a' <= c <= 'z') && !('A' <= c <= 'Z'),
        },
{
}

/// A number digit by digit. One digit says its value. A digit behind a number
/// makes it the base times as much and the digit more, as long as that is no
/// more than the greatest allowed. A plus sign before a number changes
/// nothing. Nothing, a plus sign alone, and anything that holds a character
/// that is no digit say no number.
pub proof fn law_numbers_digit_by_digit(text: Seq<char>, c: char, base: nat, max: nat)
    requires
        2 <= base <= 36,
    ensures
        text.len() == 0 ==> number(text, base, max) is None,
        number(seq!['+'], base, max) is None,
        c != '+' ==> number(seq![c], base, max) == (match digit_value(c) {
            Some(value) => if value < base && value <= max {
                Some(value)
            } else {
                None
            },
            None => None,
        }),
        text.len() > 0 && text != seq!['+'] ==> number(text.push(c), base, max) == (match (
            number(text, base, max),
            digit_value(c),
        ) {
            (Some(front), Some(value)) => if value < base && base * front + value <= max {
                Some((base * front + value) as nat)
            } else {
                None
            },
            _ => None,
        }),
        text.len() > 0 && text[0] != '+' ==> number(seq!['+'] + text, base, max) == number(
            text,
            base,
            max,
        ),
        text.len() > 0 && text[0] == '+' ==> number(seq!['+'] + text, base, max) is None,
{
    assert(unsigned(seq!['+']) =~= seq![]);
    if c != '+' {
        let one = seq![c];
        assert(unsigned(one) =~= one);
        assert(one.drop_last() =~= seq![]);
        assert(magnitude(seq![], base) == 0);
        assert(base * 0 == 0) by (nonlinear_arith);
        assert(magnitude(one, base) == digit_value(c).unwrap_or(0));
        if number(one, base, max) is None && is_digit(c, base) && digit_value(c)->0 <= max {
            assert(forall|i: int| 0 <= i < one.len() ==> is_digit(#[trigger] one[i], base));
        }
        if number(one, base, max) is Some {
            assert(is_digit(one[0], base));
        }
    }
    if text.len() > 0 && text != seq!['+'] {
        lemma_one_more_digit(text, c, base, max);
    }
    if text.len() > 0 {
        assert((seq!['+'] + text).skip(1) =~= text);
    }
    if text.len() > 0 && text[0] == '+' {
        assert(!is_digit(text[0], base));
    }
}

proof fn lemma_one_more_digit(text: Seq<char>, c: char, base: nat, max: nat)
    requires
        2 <= base <= 36,
        text.len() > 0,
        text != seq!['+'],
    ensures
        number(text.push(c), base, max) == (match (number(text, base, max), digit_value(c)) {
            (Some(front), Some(value)) => if value < base && base * front + value <= max {
                Some((base * front + value) as nat)
            } else {
                None
            },
            _ => None,
        }),
{
    let front = unsigned(text);
    let whole = unsigned(text.push(c));
    if text[0] == '+' && text.len() == 1 {
        assert(text =~= seq!['+']);
    }
    assert(front.len() > 0);
    assert(whole =~= front.push(c));
    assert(whole.drop_last() =~= front);
    let value = magnitude(front, base);
    assert(base * value >= value) by (nonlinear_arith)
        requires
            base >= 1,
    ;
    if forall|i: int| 0 <= i < whole.len() ==> is_digit(#[trigger] whole[i], base) {
        assert forall|i: int| 0 <= i < front.len() implies is_digit(#[trigger] front[i], base) by {
            assert(front[i] == whole[i]);
        }
        assert(is_digit(whole[whole.len() - 1], base));
    } else {
        let bad = choose|i: int| 0 <= i < whole.len() && !is_digit(#[trigger] whole[i], base);
        if bad < front.len() {
            assert(!is_digit(front[bad], base));
        }
    }
}

/// Whether a string has no slash in it.
pub open spec fn slashless(text: Seq<char>) -> bool {
    forall|i: int| 0 <= i < text.len() ==> #[trigger] text[i] != '/'
}

/// A path of three parts between two slashes says an address exactly if the
/// first says a node in decimal, the second an index in hexadecimal behind
/// `0x`, and the third a subindex in decimal, each within its range. Then
/// those are the address.
pub proof fn law_address_is_three_numbers(
    first: Seq<char>,
    second: Seq<char>,
    third: Seq<char>,
)
    requires
        slashless(first),
        slashless(second),
        slashless(third),
    ensures
        ({
            let path = first + seq!['/'] + second + seq!['/'] + third;
            let marked = second.len() >= 2 && second[0] == '0' && second[1] == 'x';
            match (
                number(first, 10, 255),
                number(second.skip(2), 16, 65535),
                number(third, 10, 255),
            ) {
                (Some(node), Some(index), Some(subindex)) => if marked {
                    address(path) == Some((node as u8, index as u16, subindex as u8))
                } else {
                    address(path) is None
                },
                _ => address(path) is None,
            }
        }),
{
    let path = first + seq!['/'] + second + seq!['/'] + third;
    let tail = second + seq!['/'] + third;
    assert(path =~= first + seq!['/'] + tail);
    lemma_cut(first, tail);
    lemma_cut(second, third);
    lemma_cut(third, seq![]);
    assert(parts(path) =~= seq![first, second, third]);
}

proof fn lemma_cut_is_first_slash(text: Seq<char>)
    ensures
        cut(text) <= text.len(),
        slashless(text.take(cut(text) as int)),
        cut(text) < text.len() ==> text[cut(text) as int] == '/',
    decreases text.len(),
{
    if text.len() > 0 && text[0] != '/' {
        let rest = text.skip(1);
        lemma_cut_is_first_slash(rest);
        let front = text.take(cut(text) as int);
        assert forall|i: int| 0 <= i < front.len() implies #[trigger] front[i] != '/' by {
            if i > 0 {
                assert(rest.take(cut(rest) as int)[i - 1] == text[i]);
            }
        }
    }
}

/// Whatever says an address is three parts between two slashes: a path with
/// fewer slashes, or with more, says none.
pub proof fn law_address_has_two_slashes(path: Seq<char>)
    ensures
        address(path) is Some ==> exists|first: Seq<char>, second: Seq<char>, third: Seq<char>|
            slashless(first) && slashless(second) && slashless(third) && path == #[trigger] (first
                + seq!['/'] + second + seq!['/'] + third),
{
    if address(path) is Some {
        lemma_cut_is_first_slash(path);
        let first = path.take(cut(path) as int);
        let tail = path.skip(cut(path) as int + 1);
        lemma_cut_is_first_slash(tail);
        let second = tail.take(cut(tail) as int);
        let third = tail.skip(cut(tail) as int + 1);
        lemma_cut_is_first_slash(third);
        assert(parts(path).len() == 3);
        assert(cut(path) < path.len());
        assert(parts(path).len() == 1 + parts(tail).len());
        assert(cut(tail) < tail.len());
        assert(parts(tail).len() == 1 + parts(third).len());
        lemma_some_part(third.skip(cut(third) as int + 1));
        assert(cut(third) >= third.len());
        assert(third.take(cut(third) as int) =~= third);
        assert(path =~= first + seq!['/'] + second + seq!['/'] + third);
    }
}

proof fn lemma_some_part(text: Seq<char>)
    ensures
        parts(text).len() >= 1,
{
}

/// The path of a node's object is the node in decimal, `0x` and four
/// hexadecimal digits of the index, and the subindex in decimal, with slashes
/// between them.
pub proof fn law_path_is_three_numbers(node: u8, index: u16, subindex: u8)
    ensures
        path(node, index, subindex) == decimal(node as nat) + "/0x"@ + hexadecimal(
            index as nat,
            4,
        ) + "/"@ + decimal(subindex as nat),
{
}

} // verus!
