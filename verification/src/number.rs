//! The abstract operation `StringToNumber`, up to the point where a number is computed: the
//! string is trimmed, decoded, and classified as one of the forms of a numeric literal. What
//! is left to the caller is arithmetic on floating-point numbers.

use crate::builder::append_units;
use crate::decode::push_char;
use crate::js_string::JsString;
use crate::unicode::{code_points, decode_at, decode_utf16, lemma_code_points_step,
    lemma_scalars_concat, scalars, CodePoint};
use crate::whitespace::trim_units;
use vstd::prelude::*;

verus! {

/// A numeric literal.
#[derive(Debug, PartialEq, Eq)]
pub enum NumericLiteral {
    /// The empty literal, whose value is zero.
    Zero,
    /// `Infinity` or `+Infinity`.
    Infinity,
    /// `-Infinity`.
    NegInfinity,
    /// No literal at all; its value is not a number.
    NotANumber,
    /// A binary, octal or hexadecimal integer literal whose value fits 32 bits.
    Integer(u32),
    /// A binary, octal or hexadecimal integer literal whose value does not fit 32 bits: its
    /// base, and the values of its digits, the most significant digit first. Its value is
    /// computed by taking `value * base + digit` for each digit in turn, from zero.
    Digits { base: u32, digits: Vec<u8> },
    /// Any other text, which is a number exactly where it is a decimal literal.
    Decimal(String),
}

/// What a numeric literal holds.
pub enum NumericLiteralView {
    Zero,
    Infinity,
    NegInfinity,
    NotANumber,
    Integer(int),
    Digits { base: int, digits: Seq<u8> },
    Decimal(Seq<char>),
}

impl View for NumericLiteral {
    type V = NumericLiteralView;

    open spec fn view(&self) -> NumericLiteralView {
        match self {
            NumericLiteral::Zero => NumericLiteralView::Zero,
            NumericLiteral::Infinity => NumericLiteralView::Infinity,
            NumericLiteral::NegInfinity => NumericLiteralView::NegInfinity,
            NumericLiteral::NotANumber => NumericLiteralView::NotANumber,
            NumericLiteral::Integer(value) => NumericLiteralView::Integer(*value as int),
            NumericLiteral::Digits { base, digits } => NumericLiteralView::Digits {
                base: *base as int,
                digits: digits@,
            },
            NumericLiteral::Decimal(text) => NumericLiteralView::Decimal(text@),
        }
    }
}

impl Clone for NumericLiteral {
    /// A literal that holds the same.
    fn clone(&self) -> (r: Self)
        ensures
            r@ == self@,
    {
        match self {
            NumericLiteral::Zero => NumericLiteral::Zero,
            NumericLiteral::Infinity => NumericLiteral::Infinity,
            NumericLiteral::NegInfinity => NumericLiteral::NegInfinity,
            NumericLiteral::NotANumber => NumericLiteral::NotANumber,
            NumericLiteral::Integer(value) => NumericLiteral::Integer(*value),
            NumericLiteral::Digits { base, digits } => NumericLiteral::Digits {
                base: *base,
                digits: vstd::slice::slice_to_vec(digits.as_slice()),
            },
            NumericLiteral::Decimal(text) => NumericLiteral::Decimal(text.clone()),
        }
    }
}

/// The value of a character as a digit, for any base up to 36: the decimal digits stand for
/// zero to nine, and the letters, in either case, for ten to thirty-five.
pub open spec fn digit_value(c: char) -> Option<int> {
    let v = c as u32;
    if 0x30 <= v <= 0x39 {
        Some(v - 0x30)
    } else if 0x41 <= v <= 0x5A {
        Some(v - 0x41 + 10)
    } else if 0x61 <= v <= 0x7A {
        Some(v - 0x61 + 10)
    } else {
        None
    }
}

/// The character is a digit of the base.
pub open spec fn is_digit(c: char, base: int) -> bool {
    digit_value(c) matches Some(d) && d < base
}

/// Every character of the text is a digit of the base.
pub open spec fn all_digits(text: Seq<char>, base: int) -> bool {
    forall|i: int| 0 <= i < text.len() ==> is_digit(#[trigger] text[i], base)
}

/// The value of each digit of a text of digits.
pub open spec fn digit_values(text: Seq<char>) -> Seq<u8> {
    Seq::new(
        text.len(),
        |i: int|
            match digit_value(text[i]) {
                Some(d) => d as u8,
                None => 0u8,
            },
    )
}

/// The value of a text of digits in a base.
pub open spec fn radix_value(text: Seq<char>, base: int) -> int
    decreases text.len(),
{
    if text.len() == 0 {
        0
    } else {
        radix_value(text.drop_last(), base) * base + match digit_value(text.last()) {
            Some(d) => d,
            None => 0,
        }
    }
}

/// The base that the prefix of a literal selects: `0b`, `0o` and `0x`, in either case, select
/// the bases 2, 8 and 16.
pub open spec fn prefix_base(text: Seq<char>) -> Option<int> {
    if text.len() >= 2 && text[0] == '0' {
        if text[1] == 'b' || text[1] == 'B' {
            Some(2)
        } else if text[1] == 'o' || text[1] == 'O' {
            Some(8)
        } else if text[1] == 'x' || text[1] == 'X' {
            Some(16)
        } else {
            None
        }
    } else {
        None
    }
}

/// The literal of the digits that follow a prefix: an unsigned integer. There is no literal
/// where there is no digit, or where a character is not a digit of the base; a sign is no
/// digit.
pub open spec fn radix_literal(digits: Seq<char>, base: int) -> NumericLiteralView {
    if digits.len() == 0 || !all_digits(digits, base) {
        NumericLiteralView::NotANumber
    } else if radix_value(digits, base) <= u32::MAX {
        NumericLiteralView::Integer(radix_value(digits, base))
    } else {
        NumericLiteralView::Digits { base, digits: digit_values(digits) }
    }
}

/// The literal of a text without white space around it.
pub open spec fn text_literal(text: Seq<char>) -> NumericLiteralView {
    if text.len() == 0 {
        NumericLiteralView::Zero
    } else if text == "Infinity"@ || text == "+Infinity"@ {
        NumericLiteralView::Infinity
    } else if text == "-Infinity"@ {
        NumericLiteralView::NegInfinity
    } else if prefix_base(text) is Some {
        radix_literal(text.skip(2), prefix_base(text)->0)
    } else if text[0] == 'i' || text[0] == 'I' {
        NumericLiteralView::NotANumber
    } else {
        NumericLiteralView::Decimal(text)
    }
}

/// The literal of a string: the literal of its text without the white space around it, and
/// no literal where the string holds an unpaired surrogate. A sign before a prefix makes no
/// integer literal: the text is then left to the grammar of decimal literals, which has no
/// prefix.
pub open spec fn numeric_literal(units: Seq<u16>) -> NumericLiteralView {
    match decode_utf16(trim_units(units)) {
        Some(text) => text_literal(text),
        None => NumericLiteralView::NotANumber,
    }
}

/// Decodes code units into characters, unless there is an unpaired surrogate among them.
pub fn decode_units(units: &[u16]) -> (r: Option<Vec<char>>)
    ensures
        match r {
            Some(text) => decode_utf16(units@) == Some(text@),
            None => decode_utf16(units@) is None,
        },
{
    let mut text: Vec<char> = Vec::new();
    let ghost mut done: Seq<CodePoint> = Seq::empty();
    let mut position: usize = 0;
    assert(units@.skip(0) =~= units@);
    while position < units.len()
        invariant
            position <= units.len(),
            code_points(units@) == done + code_points(units@.skip(position as int)),
            scalars(done) == Some(text@),
        decreases units.len() - position,
    {
        let point = decode_at(units, position);
        proof {
            lemma_code_points_step(units@, position as int);
            let rest = code_points(units@.skip(position + point.width()));
            assert(done.push(point) + rest =~= done + (seq![point] + rest));
            lemma_scalars_concat(done, seq![point]);
            lemma_scalars_concat(done.push(point), rest);
            assert(done + seq![point] =~= done.push(point));
            assert(seq![point].drop_first() =~= Seq::<CodePoint>::empty());
            assert(scalars(seq![point].drop_first()) == Some(Seq::<char>::empty()));
        }
        match point {
            CodePoint::Unicode(c) => {
                proof {
                    assert(scalars(seq![point]) == Some(seq![c] + Seq::<char>::empty()));
                    assert(text@ + (seq![c] + Seq::<char>::empty()) =~= text@.push(c));
                    done = done.push(point);
                }
                text.push(c);
                position = position + point.code_unit_count();
            },
            CodePoint::UnpairedSurrogate(_) => {
                proof {
                    assert(scalars(seq![point]) is None);
                }
                return None;
            },
        }
    }
    proof {
        assert(done + code_points(units@.skip(units@.len() as int)) =~= done);
    }
    Some(text)
}

/// Gets the value of a character as a digit, if it is a digit of the base.
fn to_digit(c: char, base: u32) -> (r: Option<u8>)
    requires
        base <= 36,
    ensures
        match r {
            Some(d) => is_digit(c, base as int) && digit_value(c) == Some(d as int),
            None => !is_digit(c, base as int),
        },
{
    let v = c as u32;
    let digit: u32 = if 0x30 <= v && v <= 0x39 {
        v - 0x30
    } else if 0x41 <= v && v <= 0x5A {
        v - 0x41 + 10
    } else if 0x61 <= v && v <= 0x7A {
        v - 0x61 + 10
    } else {
        return None;
    };
    if digit < base {
        Some(digit as u8)
    } else {
        None
    }
}

/// The value of digits grows with each digit that follows.
proof fn lemma_radix_value_grows(text: Seq<char>, base: int, count: int)
    requires
        base >= 1,
        0 <= count <= text.len(),
    ensures
        0 <= radix_value(text.take(count), base) <= radix_value(text, base),
    decreases text.len() - count,
{
    lemma_radix_value_nonnegative(text.take(count), base);
    if count == text.len() {
        assert(text.take(count) =~= text);
    } else {
        lemma_radix_value_grows(text, base, count + 1);
        let longer = text.take(count + 1);
        assert(longer.drop_last() =~= text.take(count));
        let shorter = radix_value(text.take(count), base);
        assert(shorter * base >= shorter) by (nonlinear_arith)
            requires
                shorter >= 0,
                base >= 1,
        ;
    }
}

/// The value of digits is not negative.
proof fn lemma_radix_value_nonnegative(text: Seq<char>, base: int)
    requires
        base >= 1,
    ensures
        radix_value(text, base) >= 0,
    decreases text.len(),
{
    if text.len() > 0 {
        lemma_radix_value_nonnegative(text.drop_last(), base);
        let shorter = radix_value(text.drop_last(), base);
        assert(shorter * base >= 0) by (nonlinear_arith)
            requires
                shorter >= 0,
                base >= 1,
        ;
    }
}

/// Computes the value of a text of digits, if every character of it is a digit of the base
/// and the value fits 32 bits.
fn parse_radix(text: &[char], base: u32) -> (r: Option<u32>)
    requires
        2 <= base <= 36,
    ensures
        match r {
            Some(value) => all_digits(text@, base as int) && value == radix_value(
                text@,
                base as int,
            ),
            None => !(all_digits(text@, base as int) && radix_value(text@, base as int)
                <= u32::MAX),
        },
{
    let mut value: u64 = 0;
    let mut i: usize = 0;
    assert(text@.take(0) =~= Seq::<char>::empty());
    while i < text.len()
        invariant
            i <= text.len(),
            2 <= base <= 36,
            all_digits(text@.take(i as int), base as int),
            value == radix_value(text@.take(i as int), base as int),
            value <= u32::MAX,
        decreases text.len() - i,
    {
        let ghost longer = text@.take(i + 1);
        proof {
            assert(longer.drop_last() =~= text@.take(i as int));
            assert(longer.last() == text@[i as int]);
        }
        match to_digit(text[i], base) {
            Some(digit) => {
                assert(value * base + digit <= 0xFFFF_FFFF * 36 + 36) by (nonlinear_arith)
                    requires
                        value <= 0xFFFF_FFFF,
                        base <= 36,
                        digit <= 36,
                ;
                let next: u64 = value * (base as u64) + digit as u64;
                proof {
                    assert forall|j: int| 0 <= j < longer.len() implies is_digit(
                        #[trigger] longer[j],
                        base as int,
                    ) by {
                        if j < i {
                            assert(text@.take(i as int)[j] == longer[j]);
                        }
                    }
                    assert(next == radix_value(longer, base as int));
                }
                if next > 0xFFFF_FFFF {
                    proof {
                        lemma_radix_value_grows(text@, base as int, i + 1);
                    }
                    return None;
                }
                value = next;
            },
            None => {
                assert(!is_digit(text@[i as int], base as int));
                return None;
            },
        }
        i += 1;
    }
    assert(text@.take(text@.len() as int) =~= text@);
    Some(value as u32)
}

/// Gets the values of the digits of a text, if every character of it is a digit of the base.
fn parse_digits(text: &[char], base: u32) -> (r: Option<Vec<u8>>)
    requires
        base <= 36,
    ensures
        match r {
            Some(digits) => all_digits(text@, base as int) && digits@ == digit_values(text@),
            None => !all_digits(text@, base as int),
        },
{
    let mut digits: Vec<u8> = Vec::new();
    let mut i: usize = 0;
    while i < text.len()
        invariant
            i <= text.len(),
            base <= 36,
            digits@.len() == i,
            forall|j: int| 0 <= j < i ==> is_digit(#[trigger] text@[j], base as int),
            forall|j: int| 0 <= j < i ==> digits@[j] == digit_values(text@)[j],
        decreases text.len() - i,
    {
        match to_digit(text[i], base) {
            Some(digit) => {
                digits.push(digit);
            },
            None => {
                return None;
            },
        }
        i += 1;
    }
    assert(digits@ =~= digit_values(text@));
    Some(digits)
}

/// Tells whether the characters are those of the text.
fn is_text(chars: &[char], text: &str) -> (r: bool)
    ensures
        r == (chars@ == text@),
{
    let mut i: usize = 0;
    for c in it: text.chars()
        invariant
            it.seq() == text@,
            i == it.index(),
            i <= chars@.len(),
            forall|j: int| 0 <= j < i ==> chars@[j] == text@[j],
    {
        if i >= chars.len() || chars[i] != c {
            assert(chars@ != text@) by {
                if chars@ == text@ {
                    assert(chars@[i as int] == text@[i as int]);
                }
            }
            return false;
        }
        i += 1;
    }
    if i == chars.len() {
        assert(chars@ =~= text@);
        true
    } else {
        false
    }
}

/// Copies characters into a text.
fn text_of(chars: &[char]) -> (r: String)
    ensures
        r@ == chars@,
{
    let mut text = String::new();
    let mut i: usize = 0;
    while i < chars.len()
        invariant
            i <= chars.len(),
            text@ == chars@.take(i as int),
        decreases chars.len() - i,
    {
        push_char(&mut text, chars[i]);
        assert(chars@.take(i as int).push(chars@[i as int]) =~= chars@.take(i + 1));
        i += 1;
    }
    assert(chars@.take(chars@.len() as int) =~= chars@);
    text
}

/// Classifies the digits that follow a prefix.
fn classify_radix(digits: &[char], base: u32) -> (r: NumericLiteral)
    requires
        2 <= base <= 36,
    ensures
        r@ == radix_literal(digits@, base as int),
{
    if digits.len() == 0 {
        return NumericLiteral::NotANumber;
    }
    if let Some(value) = parse_radix(digits, base) {
        return NumericLiteral::Integer(value);
    }
    match parse_digits(digits, base) {
        Some(values) => NumericLiteral::Digits { base, digits: values },
        None => NumericLiteral::NotANumber,
    }
}

/// Classifies a text without white space around it.
pub fn classify_text(text: &[char]) -> (r: NumericLiteral)
    ensures
        r@ == text_literal(text@),
{
    if text.len() == 0 {
        return NumericLiteral::Zero;
    }
    if is_text(text, "Infinity") || is_text(text, "+Infinity") {
        return NumericLiteral::Infinity;
    }
    if is_text(text, "-Infinity") {
        return NumericLiteral::NegInfinity;
    }
    if text.len() >= 2 && text[0] == '0' {
        let second = text[1];
        let base: u32 = if second == 'b' || second == 'B' {
            2
        } else if second == 'o' || second == 'O' {
            8
        } else if second == 'x' || second == 'X' {
            16
        } else {
            0
        };
        if base != 0 {
            let digits = vstd::slice::slice_subrange(text, 2, text.len());
            assert(digits@ =~= text@.skip(2));
            return classify_radix(digits, base);
        }
    }
    if text[0] == 'i' || text[0] == 'I' {
        return NumericLiteral::NotANumber;
    }
    NumericLiteral::Decimal(text_of(text))
}

impl JsString {
    /// Abstract operation `StringToNumber ( str )`, up to its arithmetic: classifies the
    /// string as a numeric literal.
    pub fn to_numeric_literal(&self) -> (r: NumericLiteral)
        ensures
            r@ == numeric_literal(self@),
    {
        let trimmed = self.trim();
        let mut units: Vec<u16> = Vec::new();
        append_units(&mut units, trimmed);
        assert(units@ =~= trim_units(self@));
        match decode_units(units.as_slice()) {
            Some(text) => classify_text(text.as_slice()),
            None => NumericLiteral::NotANumber,
        }
    }
}

} // verus!
