//! The mathematical model of UTF-16 text that every contract of this crate is stated over.
//!
//! A string is a sequence of 16-bit code units (`Seq<u16>`). Reading it from the left yields a
//! sequence of code points, each of which is either a Unicode scalar value or an unpaired
//! surrogate. Narrow text (`Seq<char>`) maps into this model through [`encode_utf16`].

use vstd::prelude::*;

verus! {

/// A Unicode code point within a string: either a valid Unicode scalar value, or a surrogate
/// code unit that is not part of a surrogate pair.
#[derive(Clone, Copy, Debug, PartialEq, Eq, Structural)]
pub enum CodePoint {
    /// A valid Unicode scalar value.
    Unicode(char),
    /// An unpaired surrogate.
    UnpairedSurrogate(u16),
}

/// The code unit is the first half of a surrogate pair.
pub open spec fn is_high_surrogate(unit: u16) -> bool {
    0xD800 <= unit <= 0xDBFF
}

/// The code unit is the second half of a surrogate pair.
pub open spec fn is_low_surrogate(unit: u16) -> bool {
    0xDC00 <= unit <= 0xDFFF
}

/// The code unit lies in the surrogate range.
pub open spec fn is_surrogate(unit: u16) -> bool {
    0xD800 <= unit <= 0xDFFF
}

/// The scalar value that a surrogate pair stands for.
pub open spec fn surrogate_pair_value(high: u16, low: u16) -> int {
    0x10000 + (high - 0xD800) * 0x400 + (low - 0xDC00)
}

/// Every code unit is below 128.
pub open spec fn is_ascii_units(units: Seq<u16>) -> bool {
    forall|i: int| 0 <= i < units.len() ==> (#[trigger] units[i]) < 0x80
}

/// Every byte is below 128.
pub open spec fn is_ascii_bytes(bytes: Seq<u8>) -> bool {
    forall|i: int| 0 <= i < bytes.len() ==> (#[trigger] bytes[i]) < 0x80
}

/// The code units of one-byte-per-character storage: each byte stands for the unit of the same
/// value.
pub open spec fn widen(bytes: Seq<u8>) -> Seq<u16> {
    Seq::new(bytes.len(), |i: int| bytes[i] as u16)
}

impl CodePoint {
    /// The number of code units that encode this code point.
    pub open spec fn width(self) -> nat {
        match self {
            CodePoint::Unicode(c) => if (c as u32) < 0x10000 {
                1
            } else {
                2
            },
            CodePoint::UnpairedSurrogate(_) => 1,
        }
    }

    /// The numeric value of this code point.
    pub open spec fn value(self) -> u32 {
        match self {
            CodePoint::Unicode(c) => c as u32,
            CodePoint::UnpairedSurrogate(unit) => unit as u32,
        }
    }

    /// The scalar value, if this code point is one.
    pub open spec fn scalar(self) -> Option<char> {
        match self {
            CodePoint::Unicode(c) => Some(c),
            CodePoint::UnpairedSurrogate(_) => None,
        }
    }

    /// The code units that encode this code point.
    pub open spec fn units(self) -> Seq<u16> {
        match self {
            CodePoint::Unicode(c) => encode_char(c),
            CodePoint::UnpairedSurrogate(unit) => seq![unit],
        }
    }
}

impl CodePoint {
    /// Gets the number of UTF-16 code units needed to encode this code point.
    pub fn code_unit_count(self) -> (r: usize)
        ensures
            r == self.width(),
    {
        match self {
            CodePoint::Unicode(c) => if (c as u32) < 0x10000 {
                1
            } else {
                2
            },
            CodePoint::UnpairedSurrogate(_) => 1,
        }
    }

    /// Converts the code point to its `u32` representation.
    pub fn as_u32(self) -> (r: u32)
        ensures
            r == self.value(),
    {
        match self {
            CodePoint::Unicode(c) => c as u32,
            CodePoint::UnpairedSurrogate(unit) => unit as u32,
        }
    }

    /// If the code point is a Unicode scalar value, returns it as a `char`; returns `None` on
    /// an unpaired surrogate.
    pub fn as_char(self) -> (r: Option<char>)
        ensures
            r == self.scalar(),
    {
        match self {
            CodePoint::Unicode(c) => Some(c),
            CodePoint::UnpairedSurrogate(_) => None,
        }
    }

    /// Encodes this code point as UTF-16 into the front of the provided buffer, and returns the
    /// part of the buffer that holds the encoding. The rest of the buffer keeps what it held.
    /// A buffer of length 2 is large enough for any code point.
    pub fn encode_utf16(self, dst: &mut [u16]) -> (r: &mut [u16])
        requires
            old(dst)@.len() >= self.width(),
        ensures
            r@ == self.units(),
            final(dst)@ == final(r)@ + old(dst)@.skip(self.width() as int),
    {
        match self {
            CodePoint::Unicode(c) => {
                let value: u32 = c as u32;
                if value < 0x10000 {
                    dst[0] = value as u16;
                    let (head, tail) = dst.split_at_mut(1);
                    assert(head@ =~= self.units());
                    assert(tail@ =~= old(dst)@.skip(1));
                    head
                } else {
                    let rest: u32 = value - 0x10000;
                    dst[0] = (0xD800 + rest / 0x400) as u16;
                    dst[1] = (0xDC00 + rest % 0x400) as u16;
                    let (head, tail) = dst.split_at_mut(2);
                    assert(head@ =~= self.units());
                    assert(tail@ =~= old(dst)@.skip(2));
                    head
                }
            },
            CodePoint::UnpairedSurrogate(unit) => {
                dst[0] = unit;
                let (head, tail) = dst.split_at_mut(1);
                assert(head@ =~= self.units());
                assert(tail@ =~= old(dst)@.skip(1));
                head
            },
        }
    }
}

/// The UTF-16 encoding of one scalar value.
pub open spec fn encode_char(c: char) -> Seq<u16> {
    if (c as u32) < 0x10000 {
        seq![c as u16]
    } else {
        seq![
            (0xD800 + ((c as u32) - 0x10000) / 0x400) as u16,
            (0xDC00 + ((c as u32) - 0x10000) % 0x400) as u16,
        ]
    }
}

/// The UTF-16 encoding of narrow text.
pub open spec fn encode_utf16(chars: Seq<char>) -> Seq<u16>
    decreases chars.len(),
{
    if chars.len() == 0 {
        Seq::empty()
    } else {
        encode_char(chars[0]) + encode_utf16(chars.drop_first())
    }
}

/// The code point that starts at `position`, by the surrogate pairing rules of UTF-16: a high
/// surrogate directly followed by a low surrogate is one scalar value of two units; any other
/// surrogate is unpaired; any other unit is a scalar value by itself.
pub open spec fn code_point_at(units: Seq<u16>, position: int) -> CodePoint
    recommends
        0 <= position < units.len(),
{
    let first = units[position];
    if !is_surrogate(first) {
        CodePoint::Unicode(first as char)
    } else if is_high_surrogate(first) && position + 1 < units.len() && is_low_surrogate(
        units[position + 1],
    ) {
        CodePoint::Unicode(surrogate_pair_value(first, units[position + 1]) as char)
    } else {
        CodePoint::UnpairedSurrogate(first)
    }
}

/// The code points of a string, read from the left.
pub open spec fn code_points(units: Seq<u16>) -> Seq<CodePoint>
    decreases units.len(),
{
    if units.len() == 0 {
        Seq::empty()
    } else {
        let first = code_point_at(units, 0);
        seq![first] + code_points(units.skip(first.width() as int))
    }
}

/// The scalar values of a sequence of code points: there are none as soon as one of the code
/// points is an unpaired surrogate.
pub open spec fn scalars(points: Seq<CodePoint>) -> Option<Seq<char>>
    decreases points.len(),
{
    if points.len() == 0 {
        Some(Seq::empty())
    } else {
        match (points[0], scalars(points.drop_first())) {
            (CodePoint::Unicode(c), Some(rest)) => Some(seq![c] + rest),
            _ => None,
        }
    }
}

/// The narrow text that a string decodes to: there is one exactly when the string holds no
/// unpaired surrogate.
pub open spec fn decode_utf16(units: Seq<u16>) -> Option<Seq<char>> {
    scalars(code_points(units))
}

/// Tells whether every code unit of the slice is below 128.
pub fn is_ascii(slice: &[u16]) -> (r: bool)
    ensures
        r == is_ascii_units(slice@),
{
    let mut index: usize = 0;
    while index < slice.len()
        invariant
            index <= slice.len(),
            is_ascii_units(slice@.take(index as int)),
        decreases slice.len() - index,
    {
        if slice[index] >= 0x80 {
            return false;
        }
        assert forall|i: int| 0 <= i < index + 1 implies (#[trigger] slice@.take(index + 1)[i])
            < 0x80 by {
            if i < index {
                assert(slice@.take(index as int)[i] == slice@[i]);
            }
        }
        index += 1;
    }
    assert(slice@.take(slice@.len() as int) =~= slice@);
    true
}

/// `char::from_u32` of the standard library: the character of the given value, which exists
/// exactly when the value is a Unicode scalar value, that is, at most 0x10FFFF and no
/// surrogate.
#[verifier::external_body]
pub(crate) fn char_from_u32(value: u32) -> (r: Option<char>)
    ensures
        r == (if value < 0xD800 || (0xE000 <= value && value <= 0x10FFFF) {
            Some(value as char)
        } else {
            None::<char>
        }),
{
    char::from_u32(value)
}

/// Decodes the code point that starts at `position`.
pub fn decode_at(units: &[u16], position: usize) -> (r: CodePoint)
    requires
        position < units@.len(),
    ensures
        r == code_point_at(units@, position as int),
{
    let first: u16 = units[position];
    if first < 0xD800 || first > 0xDFFF {
        match char_from_u32(first as u32) {
            Some(c) => CodePoint::Unicode(c),
            None => CodePoint::UnpairedSurrogate(first),
        }
    } else if first <= 0xDBFF && position + 1 < units.len() {
        let second: u16 = units[position + 1];
        if 0xDC00 <= second && second <= 0xDFFF {
            let value: u32 = 0x10000 + (first as u32 - 0xD800) * 0x400 + (second as u32 - 0xDC00);
            match char_from_u32(value) {
                Some(c) => CodePoint::Unicode(c),
                None => CodePoint::UnpairedSurrogate(first),
            }
        } else {
            CodePoint::UnpairedSurrogate(first)
        }
    } else {
        CodePoint::UnpairedSurrogate(first)
    }
}

/// Appends the UTF-16 encoding of one character.
pub fn push_char_units(out: &mut Vec<u16>, c: char)
    ensures
        final(out)@ == old(out)@ + encode_char(c),
{
    let value: u32 = c as u32;
    if value < 0x10000 {
        out.push(value as u16);
        assert(out@ =~= old(out)@ + encode_char(c));
    } else {
        let rest: u32 = value - 0x10000;
        out.push((0xD800 + rest / 0x400) as u16);
        out.push((0xDC00 + rest % 0x400) as u16);
        assert(out@ =~= old(out)@ + encode_char(c));
    }
}

/// A character's value is a Unicode scalar value, and the character is the one of that value.
pub proof fn lemma_char_range(c: char)
    ensures
        (c as u32) < 0xD800 || 0xE000 <= (c as u32) <= 0x10FFFF,
        (c as u32) as char == c,
        (c as u32) < 0x80 <==> c <= '\u{7f}',
{
}

/// The shape of the encoding of one character: a character below 0x10000 is one unit of its
/// own value, which is no surrogate; any other character is a high surrogate followed by a low
/// surrogate, and the pair stands for the character's value.
pub proof fn lemma_encode_char(c: char)
    ensures
        (c as u32) < 0x10000 ==> encode_char(c).len() == 1 && encode_char(c)[0] as u32 == c as u32
            && !is_surrogate(encode_char(c)[0]),
        (c as u32) >= 0x10000 ==> encode_char(c).len() == 2 && is_high_surrogate(encode_char(c)[0])
            && is_low_surrogate(encode_char(c)[1]) && surrogate_pair_value(
            encode_char(c)[0],
            encode_char(c)[1],
        ) == c as u32,
{
    let value = c as u32;
    if value >= 0x10000 {
        let rest = (value - 0x10000) as int;
        assert(0 <= rest < 0x100000);
        assert(0 <= rest / 0x400 < 0x400);
        assert(0 <= rest % 0x400 < 0x400);
        assert(rest == (rest / 0x400) * 0x400 + rest % 0x400);
    }
}

/// One character adds its own encoding at the end of the encoding of the text before it.
pub proof fn lemma_encode_utf16_push(chars: Seq<char>, c: char)
    ensures
        encode_utf16(chars.push(c)) == encode_utf16(chars) + encode_char(c),
    decreases chars.len(),
{
    if chars.len() == 0 {
        assert(chars.push(c).drop_first() =~= Seq::<char>::empty());
        assert(encode_utf16(chars.push(c).drop_first()) =~= Seq::<u16>::empty());
        assert(chars.push(c)[0] == c);
        assert(encode_utf16(chars.push(c)) =~= encode_char(c));
        assert(encode_utf16(chars) + encode_char(c) =~= encode_char(c));
    } else {
        lemma_encode_utf16_push(chars.drop_first(), c);
        assert(chars.push(c).drop_first() =~= chars.drop_first().push(c));
        assert(chars.push(c)[0] == chars[0]);
        assert(encode_utf16(chars.push(c)) =~= encode_utf16(chars) + encode_char(c));
    }
}

/// The encoding of a concatenation is the concatenation of the encodings.
pub proof fn lemma_encode_utf16_concat(a: Seq<char>, b: Seq<char>)
    ensures
        encode_utf16(a + b) == encode_utf16(a) + encode_utf16(b),
    decreases b.len(),
{
    if b.len() == 0 {
        assert(a + b =~= a);
        assert(encode_utf16(a) + encode_utf16(b) =~= encode_utf16(a));
    } else {
        let init = b.drop_last();
        lemma_encode_utf16_concat(a, init);
        lemma_encode_utf16_push(a + init, b.last());
        lemma_encode_utf16_push(init, b.last());
        assert(init.push(b.last()) =~= b);
        assert((a + init).push(b.last()) =~= a + b);
        assert(encode_utf16(a + b) =~= encode_utf16(a) + encode_utf16(b));
    }
}

/// Text of ASCII characters is encoded one unit per character, each unit of the character's
/// value; any other text has a unit of 128 or above in its encoding.
pub proof fn lemma_encode_utf16_ascii(chars: Seq<char>)
    ensures
        vstd::utf8::is_ascii_chars(chars) <==> is_ascii_units(encode_utf16(chars)),
        vstd::utf8::is_ascii_chars(chars) ==> encode_utf16(chars) == Seq::new(
            chars.len(),
            |i: int| chars[i] as u16,
        ),
    decreases chars.len(),
{
    if chars.len() == 0 {
        assert(encode_utf16(chars) =~= Seq::new(chars.len(), |i: int| chars[i] as u16));
    } else {
        let rest = chars.drop_first();
        lemma_encode_utf16_ascii(rest);
        let head = encode_char(chars[0]);
        let tail = encode_utf16(rest);
        assert(encode_utf16(chars) == head + tail);
        if vstd::utf8::is_ascii_chars(chars) {
            assert forall|i: int| 0 <= i < rest.len() implies '\0' <= (#[trigger] rest[i])
                <= '\u{7f}' by {
                assert(rest[i] == chars[i + 1]);
            }
            assert(head =~= seq![chars[0] as u16]);
            assert(head + tail =~= Seq::new(chars.len(), |i: int| chars[i] as u16)) by {
                assert forall|i: int| 0 <= i < chars.len() implies (head + tail)[i]
                    == chars[i] as u16 by {
                    if i > 0 {
                        assert(tail[i - 1] == rest[i - 1] as u16);
                        assert(rest[i - 1] == chars[i]);
                    }
                }
            }
            assert(is_ascii_units(encode_utf16(chars)));
        }
        if is_ascii_units(encode_utf16(chars)) {
            lemma_encode_char(chars[0]);
            assert((head + tail)[0] == head[0]);
            assert((head + tail)[0] < 0x80);
            assert((chars[0] as u32) < 0x80);
            assert(head.len() == 1);
            assert forall|i: int| 0 <= i < tail.len() implies (#[trigger] tail[i]) < 0x80 by {
                assert((head + tail)[i + 1] == tail[i]);
            }
            assert(is_ascii_units(tail));
            assert(vstd::utf8::is_ascii_chars(rest));
            lemma_char_range(chars[0]);
            assert forall|i: int| 0 <= i < chars.len() implies '\0' <= (#[trigger] chars[i])
                <= '\u{7f}' by {
                if i > 0 {
                    assert(rest[i - 1] == chars[i]);
                    assert(rest[i - 1] <= '\u{7f}');
                }
            }
        }
    }
}

/// The code points of the part of a string that starts at `position` are the code point at
/// `position`, followed by the code points of what comes after it.
pub proof fn lemma_code_points_step(units: Seq<u16>, position: int)
    requires
        0 <= position < units.len(),
    ensures
        position + code_point_at(units, position).width() <= units.len(),
        code_points(units.skip(position)) == seq![code_point_at(units, position)] + code_points(
            units.skip(position + code_point_at(units, position).width()),
        ),
{
    let rest = units.skip(position);
    let first = code_point_at(units, position);
    assert(rest[0] == units[position]);
    if position + 1 < units.len() {
        assert(rest[1] == units[position + 1]);
    }
    assert(code_point_at(rest, 0) == first);
    lemma_pair_is_wide(units, position);
    assert(rest.skip(first.width() as int) =~= units.skip(position + first.width()));
}

/// A code point is two units wide exactly when it is read from a surrogate pair.
pub proof fn lemma_pair_is_wide(units: Seq<u16>, position: int)
    requires
        0 <= position < units.len(),
    ensures
        code_point_at(units, position).width() == 2 <==> (is_high_surrogate(units[position])
            && position + 1 < units.len() && is_low_surrogate(units[position + 1])),
        code_point_at(units, position).width() == 1 || code_point_at(units, position).width() == 2,
        code_point_at(units, position).units() == units.subrange(
            position,
            position + code_point_at(units, position).width(),
        ),
{
    let first = units[position];
    let width = code_point_at(units, position).width() as int;
    if !is_surrogate(first) {
        assert(((first as char) as u32) == first as u32);
        assert(code_point_at(units, position).units() =~= units.subrange(
            position,
            position + width,
        ));
    } else if is_high_surrogate(first) && position + 1 < units.len() && is_low_surrogate(
        units[position + 1],
    ) {
        let second = units[position + 1];
        let value = surrogate_pair_value(first, second);
        assert(0x10000 <= value <= 0x10FFFF);
        assert(((value as char) as u32) == value);
        assert((value - 0x10000) / 0x400 == first - 0xD800);
        assert((value - 0x10000) % 0x400 == second - 0xDC00);
        assert(code_point_at(units, position).units() =~= units.subrange(
            position,
            position + width,
        ));
    } else {
        assert(code_point_at(units, position).units() =~= units.subrange(
            position,
            position + width,
        ));
    }
}

/// The code units of a sequence of code points, one after the other.
pub open spec fn units_of(points: Seq<CodePoint>) -> Seq<u16>
    decreases points.len(),
{
    if points.len() == 0 {
        Seq::empty()
    } else {
        points[0].units() + units_of(points.drop_first())
    }
}

/// Each character of a text as a code point.
pub open spec fn as_code_points(chars: Seq<char>) -> Seq<CodePoint>
    decreases chars.len(),
{
    if chars.len() == 0 {
        Seq::empty()
    } else {
        seq![CodePoint::Unicode(chars[0])] + as_code_points(chars.drop_first())
    }
}

/// Reading an encoded character from the front of a string yields that character, and leaves
/// what follows its encoding.
pub proof fn lemma_code_point_of_encoding(c: char, rest: Seq<u16>)
    ensures
        code_point_at(encode_char(c) + rest, 0) == CodePoint::Unicode(c),
        (encode_char(c) + rest).skip(CodePoint::Unicode(c).width() as int) == rest,
        encode_char(c).len() == CodePoint::Unicode(c).width(),
{
    let units = encode_char(c) + rest;
    lemma_encode_char(c);
    lemma_char_range(c);
    assert(units[0] == encode_char(c)[0]);
    if (c as u32) >= 0x10000 {
        assert(units[1] == encode_char(c)[1]);
        assert(surrogate_pair_value(units[0], units[1]) as char == c);
    } else {
        assert(units[0] as char == c);
    }
    assert(units.skip(encode_char(c).len() as int) =~= rest);
}

/// The code points of encoded text are the characters of the text.
pub proof fn lemma_code_points_of_encoding(chars: Seq<char>)
    ensures
        code_points(encode_utf16(chars)) == as_code_points(chars),
        scalars(as_code_points(chars)) == Some(chars),
    decreases chars.len(),
{
    if chars.len() == 0 {
        assert(code_points(encode_utf16(chars)) =~= as_code_points(chars));
        assert(scalars(as_code_points(chars)) == Some(Seq::<char>::empty()));
        assert(chars =~= Seq::<char>::empty());
    } else {
        let rest = chars.drop_first();
        lemma_code_points_of_encoding(rest);
        lemma_code_point_of_encoding(chars[0], encode_utf16(rest));
        let points = as_code_points(chars);
        assert(points[0] == CodePoint::Unicode(chars[0]));
        assert(points.drop_first() =~= as_code_points(rest));
        assert(seq![chars[0]] + rest =~= chars);
    }
}

/// Text that is encoded and then decoded comes back unchanged.
pub proof fn lemma_decode_of_encoding(chars: Seq<char>)
    ensures
        decode_utf16(encode_utf16(chars)) == Some(chars),
{
    lemma_code_points_of_encoding(chars);
}

/// A string is the concatenation of the encodings of its code points.
pub proof fn lemma_units_of_code_points(units: Seq<u16>)
    ensures
        units_of(code_points(units)) == units,
    decreases units.len(),
{
    if units.len() == 0 {
        assert(units_of(code_points(units)) =~= units);
    } else {
        let first = code_point_at(units, 0);
        let width = first.width() as int;
        lemma_pair_is_wide(units, 0);
        lemma_units_of_code_points(units.skip(width));
        let points = code_points(units);
        assert(points[0] == first);
        assert(points.drop_first() =~= code_points(units.skip(width)));
        assert(units.subrange(0, width) + units.skip(width) =~= units);
    }
}

/// The encoding of the scalar values of code points is the concatenation of the code points'
/// units.
pub proof fn lemma_encoding_of_scalars(points: Seq<CodePoint>)
    requires
        scalars(points) is Some,
    ensures
        encode_utf16(scalars(points)->0) == units_of(points),
    decreases points.len(),
{
    if points.len() == 0 {
        assert(encode_utf16(scalars(points)->0) =~= units_of(points));
    } else {
        let rest = points.drop_first();
        lemma_encoding_of_scalars(rest);
        let chars = scalars(points)->0;
        assert(chars.drop_first() =~= scalars(rest)->0);
    }
}

/// The text that a string decodes to encodes to that string.
pub proof fn lemma_encoding_of_decoded(units: Seq<u16>)
    requires
        decode_utf16(units) is Some,
    ensures
        encode_utf16(decode_utf16(units)->0) == units,
{
    lemma_encoding_of_scalars(code_points(units));
    lemma_units_of_code_points(units);
}

/// The scalar values of two sequences of code points, one after the other.
pub proof fn lemma_scalars_concat(a: Seq<CodePoint>, b: Seq<CodePoint>)
    ensures
        scalars(a + b) == match (scalars(a), scalars(b)) {
            (Some(x), Some(y)) => Some(x + y),
            _ => None::<Seq<char>>,
        },
    decreases a.len(),
{
    if a.len() == 0 {
        assert(a + b =~= b);
        if scalars(b) is Some {
            assert(Seq::<char>::empty() + scalars(b)->0 =~= scalars(b)->0);
        }
    } else {
        lemma_scalars_concat(a.drop_first(), b);
        assert((a + b).drop_first() =~= a.drop_first() + b);
        assert((a + b)[0] == a[0]);
        match (a[0], scalars(a.drop_first()), scalars(b)) {
            (CodePoint::Unicode(c), Some(x), Some(y)) => {
                assert(seq![c] + (x + y) =~= (seq![c] + x) + y);
            },
            _ => {},
        }
    }
}

/// The bytes of one-byte-per-character storage stand for ASCII code units, and only they do.
pub proof fn lemma_widen_ascii(bytes: Seq<u8>)
    ensures
        is_ascii_bytes(bytes) <==> is_ascii_units(widen(bytes)),
        widen(bytes).len() == bytes.len(),
{
    if is_ascii_bytes(bytes) {
        assert forall|i: int| 0 <= i < widen(bytes).len() implies (#[trigger] widen(bytes)[i])
            < 0x80 by {
            assert(bytes[i] < 0x80);
        }
    }
    if is_ascii_units(widen(bytes)) {
        assert forall|i: int| 0 <= i < bytes.len() implies (#[trigger] bytes[i]) < 0x80 by {
            assert(widen(bytes)[i] < 0x80);
        }
    }
}

/// The UTF-16 encoding of a text has no more code units than its UTF-8 encoding has bytes.
pub proof fn lemma_utf16_no_longer_than_utf8(chars: Seq<char>)
    ensures
        encode_utf16(chars).len() <= vstd::utf8::encode_utf8(chars).len(),
    decreases chars.len(),
{
    if chars.len() > 0 {
        lemma_utf16_no_longer_than_utf8(chars.drop_first());
        lemma_char_range(chars[0]);
        lemma_encode_char(chars[0]);
    }
}

/// The encoding of the start of a text is no longer than the encoding of all of it.
pub proof fn lemma_encode_utf16_prefix(chars: Seq<char>, count: int)
    requires
        0 <= count <= chars.len(),
    ensures
        encode_utf16(chars.take(count)).len() <= encode_utf16(chars).len(),
{
    lemma_encode_utf16_concat(chars.take(count), chars.skip(count));
    assert(chars.take(count) + chars.skip(count) =~= chars);
}

/// Counts the code units of the UTF-16 encoding of a text.
pub fn utf16_len(text: &str) -> (r: usize)
    ensures
        r == encode_utf16(text@).len(),
{
    let bound: usize = text.as_bytes().len();
    proof {
        lemma_utf16_no_longer_than_utf8(text@);
    }
    let mut count: usize = 0;
    for c in it: text.chars()
        invariant
            it.seq() == text@,
            count == encode_utf16(text@.take(it.index() as int)).len(),
            encode_utf16(text@).len() <= bound,
    {
        proof {
            let k = it.index() as int;
            lemma_encode_utf16_push(text@.take(k), c);
            assert(text@.take(k).push(c) =~= text@.take(k + 1));
            lemma_encode_utf16_prefix(text@, k + 1);
            lemma_encode_char(c);
        }
        if (c as u32) < 0x10000 {
            count = count + 1;
        } else {
            count = count + 2;
        }
    }
    assert(text@.take(text@.len() as int) =~= text@);
    count
}

/// Appends the UTF-16 encoding of a text.
pub fn push_str_units(out: &mut Vec<u16>, text: &str)
    ensures
        final(out)@ == old(out)@ + encode_utf16(text@),
{
    assert(out@ =~= old(out)@ + encode_utf16(text@.take(0)));
    for c in it: text.chars()
        invariant
            it.seq() == text@,
            out@ == old(out)@ + encode_utf16(text@.take(it.index() as int)),
    {
        proof {
            let k = it.index() as int;
            lemma_encode_utf16_push(text@.take(k), c);
            assert(text@.take(k).push(c) =~= text@.take(k + 1));
        }
        push_char_units(out, c);
        assert(out@ =~= old(out)@ + encode_utf16(text@.take(it.index() + 1)));
    }
    assert(text@.take(text@.len() as int) =~= text@);
}

/// A high surrogate that is directly followed by a low surrogate is read, together with it,
/// as the scalar value that the pair stands for, with a width of two code units.
pub proof fn lemma_surrogate_pair(units: Seq<u16>, position: int)
    requires
        0 <= position,
        position + 1 < units.len(),
        is_high_surrogate(units[position]),
        is_low_surrogate(units[position + 1]),
    ensures
        code_point_at(units, position) is Unicode,
        code_point_at(units, position).value() == surrogate_pair_value(
            units[position],
            units[position + 1],
        ),
        code_point_at(units, position).width() == 2,
{
    let value = surrogate_pair_value(units[position], units[position + 1]);
    assert(0x10000 <= value <= 0x10FFFF);
    assert(((value as char) as u32) == value);
}

/// A low surrogate that does not follow a high surrogate is read as an unpaired surrogate,
/// with a width of one code unit; so is a high surrogate that no low surrogate follows.
pub proof fn lemma_lone_surrogate(units: Seq<u16>, position: int)
    requires
        0 <= position < units.len(),
        is_low_surrogate(units[position]) || (is_high_surrogate(units[position]) && (position + 1
            == units.len() || !is_low_surrogate(units[position + 1]))),
    ensures
        code_point_at(units, position) == CodePoint::UnpairedSurrogate(units[position]),
        code_point_at(units, position).width() == 1,
{
}

} // verus!
