//! The white space of the ECMAScript grammar, and what trimming it away from a string leaves.

use crate::unicode::{encode_char, encode_utf16, lemma_char_range, lemma_encode_char,
    lemma_encode_utf16_push};
use vstd::prelude::*;

verus! {

/// The code points that trimming removes: the white space and line terminator code points of
/// the ECMAScript grammar. The set differs from Unicode's `White_Space` property: it holds
/// U+FEFF and does not hold U+0085.
pub open spec fn is_trimmable(value: u32) -> bool {
    ||| value == 0x0009
    ||| value == 0x000A
    ||| value == 0x000B
    ||| value == 0x000C
    ||| value == 0x000D
    ||| value == 0x0020
    ||| value == 0x00A0
    ||| value == 0x1680
    ||| 0x2000 <= value <= 0x200A
    ||| value == 0x2028
    ||| value == 0x2029
    ||| value == 0x202F
    ||| value == 0x205F
    ||| value == 0x3000
    ||| value == 0xFEFF
}

/// Tells whether trimming removes the character.
pub fn is_trimmable_whitespace(c: char) -> (r: bool)
    ensures
        r == is_trimmable(c as u32),
{
    is_trimmable_value(c as u32)
}

/// Tells whether trimming removes the code unit. No surrogate is trimmable, so a unit is
/// trimmable exactly when it is a trimmable character by itself.
pub fn is_trimmable_unit(unit: u16) -> (r: bool)
    ensures
        r == is_trimmable(unit as u32),
{
    is_trimmable_value(unit as u32)
}

fn is_trimmable_value(value: u32) -> (r: bool)
    ensures
        r == is_trimmable(value),
{
    value == 0x0009 || value == 0x000A || value == 0x000B || value == 0x000C || value == 0x000D
        || value == 0x0020 || value == 0x00A0 || value == 0x1680 || (0x2000 <= value && value
        <= 0x200A) || value == 0x2028 || value == 0x2029 || value == 0x202F || value == 0x205F
        || value == 0x3000 || value == 0xFEFF
}

/// The number of trimmable code units at the start of a string.
pub open spec fn leading_trimmable(units: Seq<u16>) -> nat
    decreases units.len(),
{
    if units.len() == 0 || !is_trimmable(units[0] as u32) {
        0
    } else {
        1 + leading_trimmable(units.drop_first())
    }
}

/// The number of trimmable code units at the end of a string.
pub open spec fn trailing_trimmable(units: Seq<u16>) -> nat
    decreases units.len(),
{
    if units.len() == 0 || !is_trimmable(units.last() as u32) {
        0
    } else {
        1 + trailing_trimmable(units.drop_last())
    }
}

/// The string without the white space at its start.
pub open spec fn trim_start_units(units: Seq<u16>) -> Seq<u16> {
    units.skip(leading_trimmable(units) as int)
}

/// The string without the white space at its end.
pub open spec fn trim_end_units(units: Seq<u16>) -> Seq<u16> {
    units.take(units.len() - trailing_trimmable(units))
}

/// The string without the white space at its start and at its end.
pub open spec fn trim_units(units: Seq<u16>) -> Seq<u16> {
    trim_end_units(trim_start_units(units))
}

/// The leading white space ends at the first code unit that is not trimmable.
pub proof fn lemma_leading_trimmable(units: Seq<u16>, count: int)
    requires
        0 <= count <= units.len(),
        forall|i: int| 0 <= i < count ==> is_trimmable(#[trigger] units[i] as u32),
        count == units.len() || !is_trimmable(units[count] as u32),
    ensures
        leading_trimmable(units) == count,
    decreases count,
{
    if count > 0 {
        let rest = units.drop_first();
        assert(is_trimmable(units[0] as u32));
        assert forall|i: int| 0 <= i < count - 1 implies is_trimmable(
            #[trigger] rest[i] as u32,
        ) by {
            assert(rest[i] == units[i + 1]);
        }
        if count < units.len() {
            assert(rest[count - 1] == units[count]);
        }
        lemma_leading_trimmable(rest, count - 1);
    }
}

/// The trailing white space starts after the last code unit that is not trimmable.
pub proof fn lemma_trailing_trimmable(units: Seq<u16>, count: int)
    requires
        0 <= count <= units.len(),
        forall|i: int|
            units.len() - count <= i < units.len() ==> is_trimmable(#[trigger] units[i] as u32),
        count == units.len() || !is_trimmable(units[units.len() - count - 1] as u32),
    ensures
        trailing_trimmable(units) == count,
    decreases count,
{
    if count > 0 {
        let rest = units.drop_last();
        assert(is_trimmable(units[units.len() - 1] as u32));
        assert forall|i: int| rest.len() - (count - 1) <= i < rest.len() implies is_trimmable(
            #[trigger] rest[i] as u32,
        ) by {
            assert(rest[i] == units[i]);
        }
        if count < units.len() {
            assert(rest[rest.len() - (count - 1) - 1] == units[units.len() - count - 1]);
        }
        lemma_trailing_trimmable(rest, count - 1);
    }
}

/// The leading white space is no longer than the string, all of it is trimmable, and the
/// code unit after it is not.
pub proof fn lemma_leading_trimmable_bound(units: Seq<u16>)
    ensures
        leading_trimmable(units) <= units.len(),
        forall|i: int|
            0 <= i < leading_trimmable(units) ==> is_trimmable(#[trigger] units[i] as u32),
        leading_trimmable(units) < units.len() ==> !is_trimmable(
            units[leading_trimmable(units) as int] as u32,
        ),
    decreases units.len(),
{
    if units.len() == 0 || !is_trimmable(units[0] as u32) {
    } else {
        let rest = units.drop_first();
        lemma_leading_trimmable_bound(rest);
        assert forall|i: int| 0 <= i < leading_trimmable(units) implies is_trimmable(
            #[trigger] units[i] as u32,
        ) by {
            if i > 0 {
                assert(rest[i - 1] == units[i]);
            }
        }
        if leading_trimmable(units) < units.len() {
            assert(rest[leading_trimmable(rest) as int] == units[leading_trimmable(units) as int]);
        }
    }
}

/// The trailing white space is no longer than the string, all of it is trimmable, and the
/// code unit before it is not.
pub proof fn lemma_trailing_trimmable_bound(units: Seq<u16>)
    ensures
        trailing_trimmable(units) <= units.len(),
        forall|i: int|
            units.len() - trailing_trimmable(units) <= i < units.len() ==> is_trimmable(
                #[trigger] units[i] as u32,
            ),
        trailing_trimmable(units) < units.len() ==> !is_trimmable(
            units[units.len() - trailing_trimmable(units) - 1] as u32,
        ),
    decreases units.len(),
{
    if units.len() == 0 || !is_trimmable(units.last() as u32) {
    } else {
        let rest = units.drop_last();
        lemma_trailing_trimmable_bound(rest);
        assert forall|i: int|
            units.len() - trailing_trimmable(units) <= i < units.len() implies is_trimmable(
            #[trigger] units[i] as u32,
        ) by {
            if i < units.len() - 1 {
                assert(rest[i] == units[i]);
            }
        }
        if trailing_trimmable(units) < units.len() {
            assert(rest[rest.len() - trailing_trimmable(rest) - 1] == units[units.len()
                - trailing_trimmable(units) - 1]);
        }
    }
}

/// A trimmable character is encoded as one trimmable code unit; the encoding of any other
/// character starts and ends with a code unit that is not trimmable.
pub proof fn lemma_trimmable_char(c: char)
    ensures
        is_trimmable(c as u32) ==> encode_char(c).len() == 1 && is_trimmable(
            encode_char(c)[0] as u32,
        ),
        !is_trimmable(c as u32) ==> !is_trimmable(encode_char(c)[0] as u32) && !is_trimmable(
            encode_char(c).last() as u32,
        ),
{
    lemma_encode_char(c);
    lemma_char_range(c);
}

/// Trimming the start of encoded text leaves the encoding of the text without its leading
/// trimmable characters.
pub proof fn lemma_trim_start_of_encoding(chars: Seq<char>, count: int)
    requires
        0 <= count <= chars.len(),
        forall|i: int| 0 <= i < count ==> is_trimmable(#[trigger] chars[i] as u32),
        count == chars.len() || !is_trimmable(chars[count] as u32),
    ensures
        trim_start_units(encode_utf16(chars)) == encode_utf16(chars.skip(count)),
    decreases count,
{
    let units = encode_utf16(chars);
    if count == 0 {
        assert(chars.skip(0) =~= chars);
        if chars.len() > 0 {
            lemma_trimmable_char(chars[0]);
            lemma_encode_char(chars[0]);
            assert(units[0] == encode_char(chars[0])[0]);
        }
        assert(leading_trimmable(units) == 0);
        assert(units.skip(0) =~= units);
    } else {
        let rest = chars.drop_first();
        lemma_trimmable_char(chars[0]);
        assert(is_trimmable(chars[0] as u32));
        assert forall|i: int| 0 <= i < count - 1 implies is_trimmable(
            #[trigger] rest[i] as u32,
        ) by {
            assert(rest[i] == chars[i + 1]);
        }
        if count < chars.len() {
            assert(rest[count - 1] == chars[count]);
        }
        lemma_trim_start_of_encoding(rest, count - 1);
        let tail = encode_utf16(rest);
        assert(units == encode_char(chars[0]) + tail);
        assert(units[0] == encode_char(chars[0])[0]);
        assert(units.drop_first() =~= tail);
        assert(rest.skip(count - 1) =~= chars.skip(count));
        lemma_leading_trimmable_bound(tail);
        assert(units.skip(1 + leading_trimmable(tail) as int) =~= tail.skip(
            leading_trimmable(tail) as int,
        ));
    }
}

/// Trimming the end of encoded text leaves the encoding of the text without its trailing
/// trimmable characters.
pub proof fn lemma_trim_end_of_encoding(chars: Seq<char>, count: int)
    requires
        0 <= count <= chars.len(),
        forall|i: int|
            chars.len() - count <= i < chars.len() ==> is_trimmable(#[trigger] chars[i] as u32),
        count == chars.len() || !is_trimmable(chars[chars.len() - count - 1] as u32),
    ensures
        trim_end_units(encode_utf16(chars)) == encode_utf16(chars.take(chars.len() - count)),
    decreases chars.len(),
{
    let units = encode_utf16(chars);
    if chars.len() == 0 {
        assert(chars.take(0) =~= chars);
        assert(units.take(0) =~= units);
    } else {
        let init = chars.drop_last();
        let last = chars.last();
        lemma_encode_utf16_push(init, last);
        assert(init.push(last) =~= chars);
        lemma_trimmable_char(last);
        lemma_encode_char(last);
        let head = encode_utf16(init);
        assert(units == head + encode_char(last));
        assert(units.last() == encode_char(last).last());
        if count == 0 {
            assert(!is_trimmable(last as u32));
            assert(trailing_trimmable(units) == 0);
            assert(chars.take(chars.len() as int) =~= chars);
            assert(units.take(units.len() as int) =~= units);
        } else {
            assert(is_trimmable(last as u32));
            assert forall|i: int| init.len() - (count - 1) <= i < init.len() implies is_trimmable(
                #[trigger] init[i] as u32,
            ) by {
                assert(init[i] == chars[i]);
            }
            if count < chars.len() {
                assert(init[init.len() - (count - 1) - 1] == chars[chars.len() - count - 1]);
            }
            lemma_trim_end_of_encoding(init, count - 1);
            assert(units.drop_last() =~= head);
            assert(init.take(init.len() - (count - 1)) =~= chars.take(chars.len() - count));
            lemma_trailing_trimmable_bound(head);
            assert(units.take(units.len() - (1 + trailing_trimmable(head))) =~= head.take(
                head.len() - trailing_trimmable(head),
            ));
        }
    }
}

/// Trimming the start of a string that begins with trimmable code units, such as the byte
/// order mark U+FEFF, leaves what trimming the start of the rest of the string leaves. Where
/// the rest is ASCII, so is the result.
pub proof fn lemma_trim_start_after_whitespace(mark: Seq<u16>, text: Seq<u16>)
    requires
        forall|i: int| 0 <= i < mark.len() ==> is_trimmable(#[trigger] mark[i] as u32),
    ensures
        trim_start_units(mark + text) == trim_start_units(text),
        (forall|i: int| 0 <= i < text.len() ==> (#[trigger] text[i]) < 0x80) ==> forall|i: int|
            0 <= i < trim_start_units(mark + text).len() ==> (#[trigger] trim_start_units(
                mark + text,
            )[i]) < 0x80,
{
    let units = mark + text;
    let count = mark.len() + leading_trimmable(text);
    lemma_leading_trimmable_bound(text);
    assert forall|i: int| 0 <= i < count implies is_trimmable(#[trigger] units[i] as u32) by {
        if i < mark.len() {
            assert(units[i] == mark[i]);
        } else {
            assert(units[i] == text[i - mark.len()]);
        }
    }
    if count < units.len() {
        assert(units[count as int] == text[leading_trimmable(text) as int]);
    }
    lemma_leading_trimmable(units, count as int);
    assert(units.skip(count as int) =~= text.skip(leading_trimmable(text) as int));
    if forall|i: int| 0 <= i < text.len() ==> (#[trigger] text[i]) < 0x80 {
        assert forall|i: int| 0 <= i < trim_start_units(text).len() implies (
        #[trigger] trim_start_units(text)[i]) < 0x80 by {
            assert(trim_start_units(text)[i] == text[i + leading_trimmable(text)]);
        }
    }
}

/// The byte order mark U+FEFF is trimmable, and so are the line and paragraph separators;
/// the next line character U+0085 is not, and no surrogate is.
pub proof fn lemma_trimmable_set()
    ensures
        is_trimmable(0xFEFF),
        is_trimmable(0x2028),
        is_trimmable(0x2029),
        !is_trimmable(0x0085),
        forall|value: u32| 0xD800 <= value <= 0xDFFF ==> !#[trigger] is_trimmable(value),
{
}

} // verus!
