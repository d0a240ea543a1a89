//! Decoding the code units of a string: into code points, and into narrow text.

use crate::js_str::JsStrVariant;
use crate::js_string::JsString;
use crate::unicode::{code_point_at, code_points, decode_at, decode_utf16, encode_utf16,
    lemma_code_points_step, lemma_scalars_concat, push_str_units, scalars, widen, CodePoint};
use vstd::prelude::*;

verus! {

/// The error of decoding a string that holds an unpaired surrogate into narrow text.
#[derive(Debug, Clone, Copy, PartialEq, Eq, Structural)]
pub struct FromUtf16Error;

impl FromUtf16Error {
    /// Describes the error.
    pub fn message(&self) -> (r: &'static str)
        ensures
            r@ == "invalid utf-16: lone surrogate found"@,
    {
        "invalid utf-16: lone surrogate found"
    }
}

/// The upper-case hexadecimal digit of a value below 16.
pub open spec fn hex_digit(value: int) -> char {
    if value < 10 {
        (0x30 + value) as char
    } else {
        (0x41 + value - 10) as char
    }
}

/// The escape of a code unit: a backslash, the letter `u`, and the value of the code unit in
/// four upper-case hexadecimal digits.
pub open spec fn escape_unit(unit: u16) -> Seq<char> {
    seq![
        '\\',
        'u',
        hex_digit(unit as int / 0x1000),
        hex_digit(unit as int / 0x100 % 0x10),
        hex_digit(unit as int / 0x10 % 0x10),
        hex_digit(unit as int % 0x10),
    ]
}

/// The text of a sequence of code points in which each scalar value stands for itself and
/// each unpaired surrogate is escaped.
pub open spec fn escaped(points: Seq<CodePoint>) -> Seq<char>
    decreases points.len(),
{
    if points.len() == 0 {
        Seq::empty()
    } else {
        escaped(points.drop_last()) + match points.last() {
            CodePoint::Unicode(c) => seq![c],
            CodePoint::UnpairedSurrogate(unit) => escape_unit(unit),
        }
    }
}

/// `String::push` of the standard library: appends the character to the end of the text.
#[verifier::external_body]
pub(crate) fn push_char(text: &mut String, c: char)
    ensures
        final(text)@ == old(text)@.push(c),
{
    text.push(c)
}

/// Appends the upper-case hexadecimal digit of a value below 16.
fn push_hex_digit(text: &mut String, value: u16)
    requires
        value < 16,
    ensures
        final(text)@ == old(text)@.push(hex_digit(value as int)),
{
    let byte: u8 = if value < 10 {
        0x30 + value as u8
    } else {
        0x41 + (value as u8 - 10)
    };
    push_char(text, byte as char);
}

/// Appends the escape of a code unit.
fn push_escape(text: &mut String, unit: u16)
    ensures
        final(text)@ == old(text)@ + escape_unit(unit),
{
    push_char(text, '\\');
    push_char(text, 'u');
    push_hex_digit(text, unit / 0x1000);
    push_hex_digit(text, unit / 0x100 % 0x10);
    push_hex_digit(text, unit / 0x10 % 0x10);
    push_hex_digit(text, unit % 0x10);
    assert(text@ =~= old(text)@ + escape_unit(unit));
}

/// Decodes the code point that starts at `position` of either storage.
fn decode_variant_at(value: JsStrVariant<'_>, position: usize) -> (r: CodePoint)
    requires
        value.wf(),
        position < value@.len(),
    ensures
        r == code_point_at(value@, position as int),
{
    match value {
        JsStrVariant::Ascii(bytes) => {
            let byte = bytes[position];
            assert(byte < 0x80);
            assert(widen(bytes@)[position as int] == byte as u16);
            CodePoint::Unicode(byte as char)
        },
        JsStrVariant::U16(units) => decode_at(units, position),
    }
}

impl JsString {
    /// Gets all the Unicode code points of the string, in order.
    pub fn code_points(&self) -> (r: Vec<CodePoint>)
        ensures
            r@ == code_points(self@),
    {
        let value = self.as_str().variant();
        let len = self.len();
        let mut out: Vec<CodePoint> = Vec::new();
        let mut position: usize = 0;
        assert(self@.skip(0) =~= self@);
        while position < len
            invariant
                value.wf(),
                value@ == self@,
                len == self@.len(),
                position <= len,
                code_points(self@) == out@ + code_points(self@.skip(position as int)),
            decreases len - position,
        {
            let point = decode_variant_at(value, position);
            proof {
                lemma_code_points_step(self@, position as int);
                assert(out@.push(point) + code_points(
                    self@.skip(position + point.width()),
                ) =~= out@ + (seq![point] + code_points(self@.skip(position + point.width()))));
            }
            out.push(point);
            position = position + point.code_unit_count();
        }
        assert(out@ + code_points(self@.skip(len as int)) =~= out@);
        out
    }

    /// Abstract operation `CodePointAt( string, position )`.
    ///
    /// Interprets the string as a sequence of UTF-16 encoded code points, and reads from it the
    /// code point that starts with the code unit at index `position`: a surrogate pair is read
    /// as the scalar value it stands for, with a width of two code units; any other surrogate
    /// is read as an unpaired surrogate, with a width of one.
    pub fn code_point_at(&self, position: usize) -> (r: CodePoint)
        requires
            position < self@.len(),
        ensures
            r == code_point_at(self@, position as int),
    {
        decode_variant_at(self.as_str().variant(), position)
    }

    /// Decodes the string into a [`String`].
    ///
    /// # Errors
    ///
    /// Fails exactly when the string holds an unpaired surrogate.
    pub fn to_std_string(&self) -> (r: Result<String, FromUtf16Error>)
        ensures
            match r {
                Ok(text) => decode_utf16(self@) == Some(text@),
                Err(_) => decode_utf16(self@) is None,
            },
    {
        let points = self.code_points();
        let mut text = String::new();
        let mut i: usize = 0;
        assert(points@.take(0) =~= Seq::<CodePoint>::empty());
        while i < points.len()
            invariant
                i <= points.len(),
                points@ == code_points(self@),
                scalars(points@.take(i as int)) == Some(text@),
            decreases points.len() - i,
        {
            proof {
                lemma_scalars_concat(points@.take(i as int), points@.skip(i as int));
                assert(points@.take(i as int) + points@.skip(i as int) =~= points@);
                lemma_scalars_concat(points@.take(i as int), seq![points@[i as int]]);
                assert(points@.take(i as int) + seq![points@[i as int]] =~= points@.take(i + 1));
                assert(seq![points@[i as int]].drop_first() =~= Seq::<CodePoint>::empty());
                assert(points@.skip(i as int)[0] == points@[i as int]);
            }
            match points[i] {
                CodePoint::Unicode(c) => {
                    let ghost before = text@;
                    push_char(&mut text, c);
                    proof {
                        let single = seq![points@[i as int]];
                        assert(single[0] == CodePoint::Unicode(c));
                        assert(scalars(single.drop_first()) == Some(Seq::<char>::empty()));
                        assert(scalars(single) == Some(seq![c] + Seq::<char>::empty()));
                        assert(text@ =~= before + (seq![c] + Seq::<char>::empty()));
                    }
                },
                CodePoint::UnpairedSurrogate(_) => {
                    return Err(FromUtf16Error);
                },
            }
            i += 1;
        }
        assert(points@.take(points@.len() as int) =~= points@);
        Ok(text)
    }

    /// Decodes the string into a [`String`], replacing each unpaired surrogate with its
    /// escaped representation in 4 digit hexadecimal.
    pub fn to_std_string_escaped(&self) -> (r: String)
        ensures
            r@ == escaped(code_points(self@)),
    {
        let points = self.code_points();
        let mut text = String::new();
        let mut i: usize = 0;
        assert(points@.take(0) =~= Seq::<CodePoint>::empty());
        while i < points.len()
            invariant
                i <= points.len(),
                points@ == code_points(self@),
                text@ == escaped(points@.take(i as int)),
            decreases points.len() - i,
        {
            proof {
                let longer = points@.take(i + 1);
                assert(longer.drop_last() =~= points@.take(i as int));
                assert(longer.last() == points@[i as int]);
            }
            match points[i] {
                CodePoint::Unicode(c) => {
                    let ghost before = text@;
                    push_char(&mut text, c);
                    assert(text@ =~= before + seq![c]);
                },
                CodePoint::UnpairedSurrogate(unit) => {
                    push_escape(&mut text, unit);
                },
            }
            i += 1;
        }
        assert(points@.take(points@.len() as int) =~= points@);
        text
    }
}

/// What is left of a string after its last unpaired surrogate, if it ends in scalar values.
pub open spec fn flushed(run: Option<Seq<char>>) -> Seq<Result<Seq<char>, u16>> {
    match run {
        Some(text) => seq![Ok(text)],
        None => Seq::empty(),
    }
}

/// The segments of a sequence of code points that follows a run of scalar values: the run goes
/// on for as long as scalar values follow, and each unpaired surrogate ends it.
pub open spec fn segments_after(points: Seq<CodePoint>, run: Option<Seq<char>>) -> Seq<
    Result<Seq<char>, u16>,
>
    decreases points.len(),
{
    if points.len() == 0 {
        flushed(run)
    } else {
        match points[0] {
            CodePoint::Unicode(c) => segments_after(
                points.drop_first(),
                Some(
                    match run {
                        Some(text) => text.push(c),
                        None => seq![c],
                    },
                ),
            ),
            CodePoint::UnpairedSurrogate(unit) => flushed(run) + seq![Err(unit)] + segments_after(
                points.drop_first(),
                None,
            ),
        }
    }
}

/// The segments of a sequence of code points: each longest run of scalar values as one text,
/// and each unpaired surrogate by itself, in order.
pub open spec fn segments(points: Seq<CodePoint>) -> Seq<Result<Seq<char>, u16>> {
    segments_after(points, None)
}

/// The text of each valid segment, and each unpaired surrogate as it is.
pub open spec fn segment_texts(parts: Seq<Result<String, u16>>) -> Seq<Result<Seq<char>, u16>>
    decreases parts.len(),
{
    if parts.len() == 0 {
        Seq::empty()
    } else {
        segment_texts(parts.drop_last()).push(
            match parts.last() {
                Ok(text) => Ok(text@),
                Err(unit) => Err(unit),
            },
        )
    }
}

/// The code units `out` are what mapping the valid segments through `f` can yield: each
/// unpaired surrogate stands unchanged, and each valid segment is replaced by the UTF-16
/// encoding of a text that `f` returns for it.
pub open spec fn is_mapping<F: Fn(String) -> String>(
    f: F,
    parts: Seq<Result<Seq<char>, u16>>,
    out: Seq<u16>,
) -> bool
    decreases parts.len(),
{
    if parts.len() == 0 {
        out.len() == 0
    } else {
        match parts.last() {
            Err(unit) => out.len() > 0 && out.last() == unit && is_mapping(
                f,
                parts.drop_last(),
                out.drop_last(),
            ),
            Ok(text) => exists|input: String, output: String|
                #![trigger call_ensures(f, (input,), output)]
                input@ == text && call_ensures(f, (input,), output) && encode_utf16(output@).len()
                    <= out.len() && out.skip(out.len() - encode_utf16(output@).len())
                    == encode_utf16(output@) && is_mapping(
                    f,
                    parts.drop_last(),
                    out.take(out.len() - encode_utf16(output@).len()),
                ),
        }
    }
}

impl JsString {
    /// Decodes the string into its segments: each longest run of scalar values as one
    /// [`String`], and each unpaired surrogate as an error, in order.
    pub fn to_std_string_with_surrogates(&self) -> (r: Vec<Result<String, u16>>)
        ensures
            segment_texts(r@) == segments(code_points(self@)),
    {
        let points = self.code_points();
        let mut parts: Vec<Result<String, u16>> = Vec::new();
        let mut run: Option<String> = None;
        let mut i: usize = 0;
        assert(points@.skip(0) =~= points@);
        assert(segment_texts(parts@) =~= Seq::empty());
        while i < points.len()
            invariant
                i <= points.len(),
                points@ == code_points(self@),
                segments(points@) == segment_texts(parts@) + segments_after(
                    points@.skip(i as int),
                    match run {
                        Some(text) => Some(text@),
                        None => None,
                    },
                ),
            decreases points.len() - i,
        {
            proof {
                assert(points@.skip(i as int)[0] == points@[i as int]);
                assert(points@.skip(i as int).drop_first() =~= points@.skip(i + 1));
            }
            match points[i] {
                CodePoint::Unicode(c) => {
                    let mut text = match run {
                        Some(text) => text,
                        None => String::new(),
                    };
                    let ghost before = text@;
                    push_char(&mut text, c);
                    assert(text@ =~= before.push(c));
                    assert(Seq::<char>::empty().push(c) =~= seq![c]);
                    run = Some(text);
                },
                CodePoint::UnpairedSurrogate(unit) => {
                    let ghost before = parts@;
                    let ghost rest = segments_after(points@.skip(i + 1), None);
                    let ghost previous: Option<Seq<char>> = match &run {
                        Some(text) => Some(text@),
                        None => None,
                    };
                    if let Some(text) = run {
                        parts.push(Ok(text));
                        proof {
                            assert(parts@.drop_last() =~= before);
                            assert(segment_texts(parts@) =~= segment_texts(before) + seq![
                                Ok::<Seq<char>, u16>(text@),
                            ]);
                        }
                    }
                    let ghost middle = parts@;
                    parts.push(Err(unit));
                    proof {
                        assert(parts@.drop_last() =~= middle);
                        assert(segment_texts(parts@) =~= segment_texts(middle) + seq![
                            Err::<Seq<char>, u16>(unit),
                        ]);
                        assert(segment_texts(parts@) + rest =~= segment_texts(before) + (flushed(
                            previous,
                        ) + seq![Err::<Seq<char>, u16>(unit)] + rest));
                    }
                    run = None;
                },
            }
            i += 1;
        }
        if let Some(text) = run {
            let ghost before = parts@;
            parts.push(Ok(text));
            proof {
                assert(parts@.drop_last() =~= before);
            }
        }
        parts
    }
}

/// The text is one of the valid segments of the string.
pub open spec fn is_valid_segment(units: Seq<u16>, text: Seq<char>) -> bool {
    segments(code_points(units)).contains(Ok(text))
}

/// The text of a part stands at the place of the part.
pub proof fn lemma_segment_texts(parts: Seq<Result<String, u16>>, index: int)
    requires
        0 <= index < parts.len(),
    ensures
        segment_texts(parts).len() == parts.len(),
        segment_texts(parts)[index] == match parts[index] {
            Ok(text) => Ok::<Seq<char>, u16>(text@),
            Err(unit) => Err(unit),
        },
    decreases parts.len(),
{
    lemma_segment_texts_len(parts);
    lemma_segment_texts_len(parts.drop_last());
    if index < parts.len() - 1 {
        lemma_segment_texts(parts.drop_last(), index);
    }
}

/// There are as many texts as parts.
pub proof fn lemma_segment_texts_len(parts: Seq<Result<String, u16>>)
    ensures
        segment_texts(parts).len() == parts.len(),
    decreases parts.len(),
{
    if parts.len() > 0 {
        lemma_segment_texts_len(parts.drop_last());
    }
}

impl JsString {
    /// Maps the valid segments of the string through `f`, and leaves the unpaired surrogates
    /// unchanged. `f` is called once for each longest run of scalar values, in order; it
    /// accepts each of them.
    pub fn map_valid_segments<F>(&self, f: F) -> (r: Self) where F: Fn(String) -> String
        requires
            forall|input: String|
                is_valid_segment(self@, input@) ==> #[trigger] call_requires(f, (input,)),
        ensures
            is_mapping(f, segments(code_points(self@)), r@),
    {
        let parts = self.to_std_string_with_surrogates();
        let ghost all = parts@;
        let mut text: Vec<u16> = Vec::new();
        assert(segment_texts(all.take(0)) =~= Seq::empty());
        for part in it: parts
            invariant
                it.seq() == all,
                segment_texts(all) == segments(code_points(self@)),
                forall|input: String|
                    is_valid_segment(self@, input@) ==> #[trigger] call_requires(f, (input,)),
                is_mapping(f, segment_texts(all.take(it.index() as int)), text@),
        {
            let ghost done = all.take(it.index() as int);
            let ghost before = text@;
            proof {
                assert(all.take(it.index() + 1).drop_last() =~= done);
                assert(all.take(it.index() + 1).last() == part);
                lemma_segment_texts(all, it.index() as int);
            }
            match part {
                Ok(string) => {
                    let ghost input = string;
                    assert(is_valid_segment(self@, string@)) by {
                        assert(segment_texts(all)[it.index() as int] == Ok::<Seq<char>, u16>(
                            string@,
                        ));
                    }
                    let mapped = f(string);
                    push_str_units(&mut text, mapped.as_str());
                    proof {
                        let added = encode_utf16(mapped@);
                        let texts = segment_texts(all.take(it.index() + 1));
                        assert(texts == segment_texts(done).push(Ok(input@)));
                        assert(texts.drop_last() =~= segment_texts(done));
                        assert(texts.last() == Ok::<Seq<char>, u16>(input@));
                        assert(text@.skip(text@.len() - added.len()) =~= added);
                        assert(text@.take(text@.len() - added.len()) =~= before);
                        assert(call_ensures(f, (input,), mapped));
                        assert(is_mapping(f, texts, text@));
                    }
                },
                Err(surr) => {
                    text.push(surr);
                    proof {
                        let texts = segment_texts(all.take(it.index() + 1));
                        assert(texts == segment_texts(done).push(Err(surr)));
                        assert(texts.drop_last() =~= segment_texts(done));
                        assert(texts.last() == Err::<Seq<char>, u16>(surr));
                        assert(text@.drop_last() =~= before);
                        assert(is_mapping(f, texts, text@));
                    }
                },
            }
        }
        assert(all.take(all.len() as int) =~= all);
        JsString::from(text.as_slice())
    }
}

} // verus!
