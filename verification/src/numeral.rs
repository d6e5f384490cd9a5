//! Numerals: reading and writing unsigned numbers in a given base.

use vstd::prelude::*;

verus! {

/// The standard library's error for text that is not a number; carried, never looked into.
#[verifier::external_type_specification]
#[verifier::external_body]
pub struct ExParseIntError(core::num::ParseIntError);

/// The value of a digit, in the largest radix that has letters of one alphabet as digits.
pub open spec fn digit_value(c: char) -> Option<nat> {
    if '0' <= c <= '9' {
        Some((c as u32 - '0' as u32) as nat)
    } else if 'a' <= c <= 'z' {
        Some((c as u32 - 'a' as u32 + 10) as nat)
    } else if 'A' <= c <= 'Z' {
        Some((c as u32 - 'A' as u32 + 10) as nat)
    } else {
        None
    }
}

/// `c` is a digit of the numerals to base `radix`.
pub open spec fn is_digit(c: char, radix: nat) -> bool {
    digit_value(c) matches Some(d) && d < radix
}

/// The number that a sequence of digits stands for.
pub open spec fn digits_value(digits: Seq<char>, radix: nat) -> nat
    decreases digits.len(),
{
    if digits.len() == 0 {
        0
    } else {
        digits_value(digits.drop_last(), radix) * radix + digit_value(digits.last())->0
    }
}

/// The digits of an unsigned number: what is left behind one plus sign, if there is one.
pub open spec fn without_sign(text: Seq<char>) -> Seq<char> {
    if text.len() > 0 && text[0] == '+' {
        text.drop_first()
    } else {
        text
    }
}

/// The unsigned number that `text` spells to base `radix`: an optional plus sign, then one or
/// more digits, and nothing else.
pub open spec fn unsigned_value(text: Seq<char>, radix: nat) -> Option<nat> {
    let digits = without_sign(text);
    if digits.len() > 0 && (forall|i: int|
        0 <= i < digits.len() ==> is_digit(#[trigger] digits[i], radix)) {
        Some(digits_value(digits, radix))
    } else {
        None
    }
}

/// The error that `usize::from_str_radix` reports for text that it does not accept.
pub uninterp spec fn radix_error(text: Seq<char>, radix: u32) -> core::num::ParseIntError;

/// `usize::from_str_radix`: it accepts an optional plus sign followed by digits, as long as the
/// number fits, and otherwise reports an error that depends on the arguments alone. It panics
/// where the radix is not from 2 to 36.
pub assume_specification[ usize::from_str_radix ](src: &str, radix: u32) -> (res: Result<
    usize,
    core::num::ParseIntError,
>)
    requires
        2 <= radix <= 36,
    ensures
        res matches Ok(n) ==> unsigned_value(src@, radix as nat) == Some(n as nat),
        res matches Err(e) ==> e == radix_error(src@, radix) && !(unsigned_value(
            src@,
            radix as nat,
        ) matches Some(n) && n <= usize::MAX),
;

/// The character for the digit `d`.
pub open spec fn digit_char(d: nat) -> char {
    if d < 10 {
        ('0' as u32 + d) as char
    } else {
        ('a' as u32 + d - 10) as char
    }
}

/// `n` written to base `radix`, most significant digit first, with leading zeros where fewer than
/// `width` digits would do.
pub open spec fn numeral(n: nat, radix: nat, width: nat) -> Seq<char>
    decreases n, width,
{
    if radix < 2 || (n < radix && width <= 1) {
        seq![digit_char(n)]
    } else {
        proof {
            lemma_quotient_smaller(n, radix);
        }
        numeral(n / radix, radix, if width > 0 { (width - 1) as nat } else { 0 }).push(
            digit_char(n % radix),
        )
    }
}

/// `n` in decimal.
pub open spec fn decimal(n: nat) -> Seq<char> {
    numeral(n, 10, 1)
}

/// Dividing a number by two or more makes it smaller, down to zero.
pub proof fn lemma_quotient_smaller(n: nat, radix: nat)
    requires
        radix >= 2,
    ensures
        n > 0 ==> n / radix < n,
        n == 0 ==> n / radix == 0,
{
    assert(n > 0 ==> n / radix < n) by (nonlinear_arith)
        requires
            radix >= 2,
    ;
    assert(n == 0 ==> n / radix == 0) by (nonlinear_arith)
        requires
            radix >= 2,
    ;
}

/// A number is its quotient times the divisor, plus the remainder.
proof fn lemma_quotient_remainder(n: nat, radix: nat)
    requires
        radix >= 2,
    ensures
        n == (n / radix) * radix + n % radix,
        n % radix < radix,
{
    assert(n == (n / radix) * radix + n % radix && n % radix < radix) by (nonlinear_arith)
        requires
            radix >= 2,
    ;
}

/// Digits and their values go together.
proof fn lemma_digit(d: nat, radix: nat)
    requires
        d < radix <= 36,
    ensures
        digit_value(digit_char(d)) == Some(d),
        is_digit(digit_char(d), radix),
        '\0' <= digit_char(d) <= '\u{7f}',
        digit_char(d) != '+',
{
}

/// A numeral reads back as the number that it was written for.
pub proof fn lemma_numeral_reads_back(n: nat, radix: nat, width: nat)
    requires
        2 <= radix <= 36,
    ensures
        unsigned_value(numeral(n, radix, width), radix) == Some(n),
{
    lemma_numeral(n, radix, width);
    let text = numeral(n, radix, width);
    assert(text[0] != '+') by {
        assert(is_digit(text[0], radix));
    }
}

/// A numeral consists of digits, has at least one of them, and has the value that it was written
/// for.
pub proof fn lemma_numeral(n: nat, radix: nat, width: nat)
    requires
        2 <= radix <= 36,
    ensures
        numeral(n, radix, width).len() >= 1,
        numeral(n, radix, width).len() >= width,
        forall|i: int|
            0 <= i < numeral(n, radix, width).len() ==> is_digit(
                #[trigger] numeral(n, radix, width)[i],
                radix,
            ),
        vstd::utf8::is_ascii_chars(numeral(n, radix, width)),
        digits_value(numeral(n, radix, width), radix) == n,
    decreases n, width,
{
    let text = numeral(n, radix, width);
    if n < radix && width <= 1 {
        lemma_digit(n, radix);
        assert(text.drop_last() == Seq::<char>::empty());
        assert(digits_value(text.drop_last(), radix) == 0);
        assert(0 * radix == 0) by (nonlinear_arith);
    } else {
        let rest = if width > 0 { (width - 1) as nat } else { 0 };
        lemma_quotient_smaller(n, radix);
        lemma_quotient_remainder(n, radix);
        lemma_numeral(n / radix, radix, rest);
        lemma_digit(n % radix, radix);
        assert(text.drop_last() == numeral(n / radix, radix, rest));
    }
}

/// `text` is `n` written to base `radix` in lower case: nothing but digits, no fewer than `width`
/// of them, and no leading zero that is not needed for that.
pub open spec fn spells(text: Seq<char>, n: nat, radix: nat, width: nat) -> bool {
    &&& text.len() >= 1
    &&& text.len() >= width
    &&& text.len() > 1 && text.len() > width ==> text[0] != '0'
    &&& forall|i: int|
        0 <= i < text.len() ==> is_digit(#[trigger] text[i], radix) && !('A' <= text[i] <= 'Z')
    &&& digits_value(text, radix) == n
}

/// A numeral is the number written out, with no more leading zeros than were asked for.
pub proof fn law_numeral_spells(n: nat, radix: nat, width: nat)
    requires
        2 <= radix <= 36,
    ensures
        spells(numeral(n, radix, width), n, radix, width),
    decreases n, width,
{
    let text = numeral(n, radix, width);
    lemma_numeral(n, radix, width);
    if n < radix && width <= 1 {
        lemma_digit(n, radix);
    } else {
        let rest = if width > 0 { (width - 1) as nat } else { 0 };
        let head = numeral(n / radix, radix, rest);
        lemma_quotient_smaller(n, radix);
        lemma_quotient_remainder(n, radix);
        lemma_numeral(n / radix, radix, rest);
        law_numeral_spells(n / radix, radix, rest);
        lemma_digit(n % radix, radix);
        assert forall|i: int| 0 <= i < text.len() implies is_digit(#[trigger] text[i], radix) && !(
        'A' <= text[i] <= 'Z') by {
            if i < head.len() {
                assert(text[i] == head[i]);
            }
        }
        assert(text[0] == head[0]);
        if text.len() > 1 && text.len() > width && head.len() == 1 {
            assert(n / radix >= 1) by (nonlinear_arith)
                requires
                    n >= radix,
                    radix >= 2,
            ;
            if n / radix >= radix {
                lemma_numeral(n / radix / radix, radix, 0);
            }
            assert(head == seq![digit_char(n / radix)]);
            lemma_digit(n / radix, radix);
        }
    }
}

/// There is only one way to write a number so.
pub proof fn law_spelling_is_unique(a: Seq<char>, b: Seq<char>, n: nat, radix: nat, width: nat)
    requires
        2 <= radix <= 36,
        spells(a, n, radix, width),
        spells(b, n, radix, width),
    ensures
        a == b,
{
    lemma_spelling(a, n, radix, width);
    lemma_spelling(b, n, radix, width);
}

/// What spells a number is its numeral.
proof fn lemma_spelling(text: Seq<char>, n: nat, radix: nat, width: nat)
    requires
        2 <= radix <= 36,
        spells(text, n, radix, width),
    ensures
        text == numeral(n, radix, width),
    decreases text.len(),
{
    let head = text.drop_last();
    let d = digit_value(text.last())->0;
    assert(is_digit(text[text.len() - 1], radix));
    assert(!('A' <= text[text.len() - 1] <= 'Z'));
    assert(digit_char(d) == text.last());
    let high = digits_value(head, radix);
    assert(n == high * radix + d);
    assert(n / radix == high && n % radix == d) by (nonlinear_arith)
        requires
            n == high * radix + d,
            d < radix,
            radix >= 2,
    ;
    if text.len() == 1 {
        assert(high == 0);
        assert(0 * radix == 0) by (nonlinear_arith);
        assert(text == seq![digit_char(n)]);
    } else {
        let rest = if width > 0 { (width - 1) as nat } else { 0 };
        assert(forall|i: int| 0 <= i < head.len() ==> head[i] == text[i]);
        lemma_spelling(head, high, radix, rest);
        if n < radix && width <= 1 {
            assert(high == 0) by (nonlinear_arith)
                requires
                    n == high * radix + d,
                    n < radix,
            ;
            assert(head == seq![digit_char(0)]);
            assert(head[0] == '0');
        }
        assert(text == head.push(text.last()));
    }
}

/// A number below 65536 takes four hexadecimal digits, leading zeros included.
pub proof fn lemma_four_hex_digits(n: nat)
    requires
        n <= 0xffff,
    ensures
        numeral(n, 16, 4).len() == 4,
{
    reveal_with_fuel(numeral, 5);
}

/// Up to four hexadecimal digits spell at most 65535.
pub proof fn lemma_four_hex_digits_bound(text: Seq<char>)
    requires
        text.len() <= 4,
    ensures
        unsigned_value(text, 16) matches Some(n) ==> n <= 0xffff,
{
    let digits = without_sign(text);
    if unsigned_value(text, 16) is Some {
        reveal_with_fuel(digits_value, 5);
        assert(forall|i: int| 0 <= i < digits.len() ==> is_digit(#[trigger] digits[i], 16));
        let d1 = digits.drop_last();
        let d2 = d1.drop_last();
        let d3 = d2.drop_last();
        assert(digits.len() >= 1 ==> is_digit(digits.last(), 16));
        assert(digits.len() >= 2 ==> d1.last() == digits[digits.len() - 2]);
        assert(digits.len() >= 3 ==> d2.last() == digits[digits.len() - 3]);
        assert(digits.len() >= 4 ==> d3.last() == digits[digits.len() - 4]);
    }
}

/// The character for the digit `d`.
fn digit(d: usize) -> (c: char)
    requires
        d < 36,
    ensures
        c == digit_char(d as nat),
{
    if d < 10 {
        (0x30u8 + d as u8) as char
    } else {
        (0x61u8 + (d as u8 - 10)) as char
    }
}

/// Writes `n` to base `radix`, with leading zeros up to `width` digits.
pub fn to_numeral(n: usize, radix: usize, width: usize) -> (text: String)
    requires
        2 <= radix <= 36,
    ensures
        text@ == numeral(n as nat, radix as nat, width as nat),
    decreases n, width,
{
    if n < radix && width <= 1 {
        let mut text = String::new();
        text.push(digit(n));
        text
    } else {
        proof {
            lemma_quotient_smaller(n as nat, radix as nat);
            lemma_quotient_remainder(n as nat, radix as nat);
        }
        let rest: usize = if width > 0 {
            width - 1
        } else {
            0
        };
        let mut text = to_numeral(n / radix, radix, rest);
        text.push(digit(n % radix));
        text
    }
}

/// A number is written as it is spelled.
pub proof fn law_to_numeral(n: usize, radix: usize, width: usize, text: String)
    requires
        2 <= radix <= 36,
        call_ensures(to_numeral, (n, radix, width), text),
    ensures
        spells(text@, n as nat, radix as nat, width as nat),
{
    law_numeral_spells(n as nat, radix as nat, width as nat);
}

} // verus!
