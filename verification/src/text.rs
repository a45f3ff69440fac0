//! Text as the protocol's URIs and messages use it: numerals, numbers read
//! from digits, and the halves of a text around a separator.

use vstd::arithmetic::div_mod::{lemma_div_decreases, lemma_small_mod};
use vstd::prelude::*;

verus! {

/// The character that stands for the digit `d`.
pub open spec fn digit(d: nat) -> char {
    (48 + d) as char
}

/// `n` in digits of `base`, without leading zeros.
pub open spec fn numeral(n: nat, base: nat) -> Seq<char>
    decreases n,
{
    if n < base || base < 2 {
        seq![digit(n)]
    } else {
        proof {
            lemma_div_decreases(n as int, base as int);
        }
        numeral(n / base, base).push(digit(n % base))
    }
}

/// `n` in decimal digits.
pub open spec fn decimal(n: nat) -> Seq<char> {
    numeral(n, 10)
}

/// The one-character text of the digit `d`.
fn digit_text(d: u64) -> (text: &'static str)
    requires
        d < 10,
    ensures
        text@ == seq![digit(d as nat)],
{
    proof {
        reveal_strlit("0");
        reveal_strlit("1");
        reveal_strlit("2");
        reveal_strlit("3");
        reveal_strlit("4");
        reveal_strlit("5");
        reveal_strlit("6");
        reveal_strlit("7");
        reveal_strlit("8");
        reveal_strlit("9");
    }
    match d {
        0 => "0",
        1 => "1",
        2 => "2",
        3 => "3",
        4 => "4",
        5 => "5",
        6 => "6",
        7 => "7",
        8 => "8",
        _ => "9",
    }
}

/// Append `n` in digits of `base` to `out`.
pub fn push_numeral(out: &mut String, n: u64, base: u64)
    requires
        2 <= base <= 10,
    ensures
        final(out)@ == old(out)@ + numeral(n as nat, base as nat),
    decreases n,
{
    if n < base {
        out.append(digit_text(n));
    } else {
        proof {
            lemma_div_decreases(n as int, base as int);
        }
        push_numeral(out, n / base, base);
        out.append(digit_text(n % base));
    }
}

/// Whether `c` is a decimal digit.
pub open spec fn is_digit(c: char) -> bool {
    '0' <= c <= '9'
}

/// The number that decimal digits spell.
pub open spec fn digits_value(digits: Seq<char>) -> nat
    decreases digits.len(),
{
    if digits.len() == 0 {
        0
    } else {
        10 * digits_value(digits.drop_last()) + (digits.last() as int - '0' as int) as nat
    }
}

/// What follows a plus sign, if `text` opens with one.
pub open spec fn unsigned_part(text: Seq<char>) -> Seq<char> {
    if text.len() > 0 && text[0] == '+' {
        text.skip(1)
    } else {
        text
    }
}

/// The number from 0 to 255 that `text` spells: digits, at least one, and a
/// plus sign before them or none.
pub open spec fn byte_number(text: Seq<char>) -> Option<u8> {
    let digits = unsigned_part(text);
    if digits.len() > 0 && (forall|i: int| 0 <= i < digits.len() ==> is_digit(#[trigger] digits[i]))
        && digits_value(digits) <= 255 {
        Some(digits_value(digits) as u8)
    } else {
        None
    }
}

/// Leading digits spell no more than all of them.
proof fn digits_value_grows(digits: Seq<char>, count: int)
    requires
        0 <= count <= digits.len(),
        forall|i: int| 0 <= i < digits.len() ==> is_digit(#[trigger] digits[i]),
    ensures
        digits_value(digits.take(count)) <= digits_value(digits),
    decreases digits.len() - count,
{
    if count < digits.len() {
        digits_value_grows(digits, count + 1);
        assert(digits.take(count + 1).drop_last() =~= digits.take(count));
    } else {
        assert(digits.take(count) =~= digits);
    }
}

/// Read the characters of `chars` from `from` up to `to` as a number from 0
/// to 255.
pub fn parse_byte(chars: &Vec<char>, from: usize, to: usize) -> (number: Option<u8>)
    requires
        from <= to <= chars@.len(),
    ensures
        number == byte_number(chars@.subrange(from as int, to as int)),
{
    let ghost text = chars@.subrange(from as int, to as int);
    let ghost digits = unsigned_part(text);
    let start = if from < to && chars[from] == '+' {
        from + 1
    } else {
        from
    };
    assert(digits =~= chars@.subrange(start as int, to as int));
    if start == to {
        return None;
    }
    let mut value: u32 = 0;
    let mut at: usize = start;
    while at < to
        invariant
            start <= at <= to <= chars@.len(),
            digits == chars@.subrange(start as int, to as int),
            text == chars@.subrange(from as int, to as int),
            digits == unsigned_part(text),
            value <= 255,
            value == digits_value(digits.take(at - start)),
            forall|i: int| 0 <= i < at - start ==> is_digit(#[trigger] digits[i]),
        decreases to - at,
    {
        let c = chars[at];
        assert(c == digits[at - start]);
        if c < '0' || c > '9' {
            return None;
        }
        assert(digits.take(at - start + 1).drop_last() =~= digits.take(at - start));
        value = value * 10 + (c as u32 - '0' as u32);
        at = at + 1;
        if value > 255 {
            proof {
                if forall|i: int| 0 <= i < digits.len() ==> is_digit(#[trigger] digits[i]) {
                    digits_value_grows(digits, at - start);
                }
            }
            return None;
        }
    }
    assert(digits.take(at - start) =~= digits);
    Some(value as u8)
}

/// A numeral digit by digit, in the characters that stand from '0' on: the
/// last says what is left over of its base, and what stands before it is the
/// numeral of how often the base goes into the number.
pub proof fn numeral_by_digit(n: nat, base: nat)
    requires
        2 <= base <= 10,
    ensures
        n < base ==> numeral(n, base).len() == 1,
        n >= base ==> numeral(n, base).drop_last() == numeral(n / base, base),
        numeral(n, base).len() > 0,
        numeral(n, base).last() as int == 48 + n % base,
{
    if n < base {
        lemma_small_mod(n, base);
    } else {
        assert(numeral(n, base).drop_last() =~= numeral(n / base, base));
        assert(0 <= n % base < base) by (nonlinear_arith)
            requires
                base > 0,
        ;
    }
}

/// A number from 0 to 255 digit by digit: none stands in nothing and in a plus
/// sign alone; a first digit, behind a plus sign or not, spells itself; each
/// further one adds itself to ten times what stands before it, as far as 255;
/// and anything else makes it none.
pub proof fn byte_by_digit(text: Seq<char>, c: char)
    ensures
        byte_number(Seq::empty()) is None,
        byte_number(seq!['+']) is None,
        text.len() == 0 || text == seq!['+'] ==> byte_number(text.push(c)) == if '0' <= c <= '9' {
            Some((c as int - 48) as u8)
        } else {
            None
        },
        text.len() > 0 && text != seq!['+'] ==> byte_number(text.push(c)) == match byte_number(
            text,
        ) {
            Some(n) => if '0' <= c <= '9' && 10 * n + (c as int - 48) <= 255 {
                Some((10 * n + (c as int - 48)) as u8)
            } else {
                None
            },
            None => None,
        },
{
    let digits = unsigned_part(text);
    let longer = text.push(c);
    assert(unsigned_part(Seq::<char>::empty()).len() == 0);
    assert(unsigned_part(seq!['+']).len() == 0);
    if text.len() == 0 || text == seq!['+'] {
        let one = seq![c];
        assert(one.drop_last() =~= Seq::empty());
        assert(digits_value(Seq::empty()) == 0);
        if text.len() == 0 {
            assert(longer =~= one);
            if c == '+' {
                assert(unsigned_part(longer) =~= Seq::empty());
            }
        } else {
            assert(unsigned_part(longer) =~= one);
        }
        if '0' <= c <= '9' {
            assert(unsigned_part(longer) == one);
            assert(digits_value(one) == c as int - 48);
        } else if c != '+' || text.len() > 0 {
            assert(!is_digit(unsigned_part(longer)[0]));
        }
    } else {
        if digits.len() == 0 {
            assert(text =~= seq!['+']);
        }
        assert(unsigned_part(longer) =~= digits.push(c));
        assert(digits.push(c).drop_last() =~= digits);
        assert(digits.push(c)[digits.len() as int] == c);
        assert forall|i: int| 0 <= i < digits.len() implies #[trigger] digits[i] == digits.push(
            c,
        )[i] by {}
        if forall|i: int| 0 <= i < digits.push(c).len() ==> is_digit(#[trigger] digits.push(c)[i]) {
            assert forall|i: int| 0 <= i < digits.len() implies is_digit(#[trigger] digits[i]) by {
                assert(is_digit(digits.push(c)[i]));
            }
            assert(is_digit(c));
        }
    }
}

/// Where `separator` first stands in `text`, or its length where it does not.
pub open spec fn first_at(text: Seq<char>, separator: char) -> int
    decreases text.len(),
{
    if text.len() == 0 || text[0] == separator {
        0
    } else {
        1 + first_at(text.skip(1), separator)
    }
}

/// `first_at` is a place in the text or its end, it holds the separator if
/// it is a place, and no place before it does.
pub proof fn first_at_is_first(text: Seq<char>, separator: char)
    ensures
        0 <= first_at(text, separator) <= text.len(),
        first_at(text, separator) < text.len() ==> text[first_at(text, separator)] == separator,
        forall|i: int| 0 <= i < first_at(text, separator) ==> #[trigger] text[i] != separator,
    decreases text.len(),
{
    if text.len() > 0 && text[0] != separator {
        first_at_is_first(text.skip(1), separator);
        assert forall|i: int| 0 <= i < first_at(text, separator) implies #[trigger] text[i]
            != separator by {
            if i > 0 {
                assert(text.skip(1)[i - 1] == text[i]);
            }
        }
    }
}

/// A place that holds the separator, with none before it, is `first_at`;
/// so is the end, where no place holds it.
pub proof fn first_at_unique(text: Seq<char>, separator: char, at: int)
    requires
        0 <= at <= text.len(),
        at < text.len() ==> text[at] == separator,
        forall|i: int| 0 <= i < at ==> #[trigger] text[i] != separator,
    ensures
        first_at(text, separator) == at,
{
    first_at_is_first(text, separator);
}

/// Where `separator` first stands in `chars` from `from` up to `to`, or `to`
/// where it does not.
pub fn find(chars: &Vec<char>, from: usize, to: usize, separator: char) -> (at: usize)
    requires
        from <= to <= chars@.len(),
    ensures
        from <= at <= to,
        at - from == first_at(chars@.subrange(from as int, to as int), separator),
{
    let ghost text = chars@.subrange(from as int, to as int);
    let mut at: usize = from;
    while at < to && chars[at] != separator
        invariant
            from <= at <= to <= chars@.len(),
            text == chars@.subrange(from as int, to as int),
            forall|i: int| 0 <= i < at - from ==> #[trigger] text[i] != separator,
        decreases to - at,
    {
        assert(chars[at as int] == text[at - from]);
        at = at + 1;
    }
    proof {
        if at < to {
            assert(chars[at as int] == text[at - from]);
        }
        first_at_unique(text, separator, at - from);
    }
    at
}

/// The characters of `text`, one by one.
pub fn characters(text: &str) -> (chars: Vec<char>)
    ensures
        chars@ == text@,
{
    let mut chars: Vec<char> = Vec::new();
    for c in it: text.chars()
        invariant
            chars@ == it.seq().take(it.index()),
            it.seq() == text@,
    {
        chars.push(c);
    }
    chars
}

} // verus!
