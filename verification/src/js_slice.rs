//! The borrowed slice that new strings are built from. It views code units in any of four
//! shapes, so that building and concatenating never copies a source before the final
//! allocation.

use crate::iter::Iter;
use crate::js_str::{JsStr, JsStrVariant};
use crate::unicode::{encode_utf16, is_ascii, is_ascii_bytes, is_ascii_units,
    lemma_encode_utf16_ascii, lemma_widen_ascii, utf16_len, widen};
use crate::whitespace::{is_trimmable, is_trimmable_unit, is_trimmable_whitespace,
    leading_trimmable, lemma_leading_trimmable, lemma_trailing_trimmable,
    lemma_trim_end_of_encoding, lemma_trim_start_of_encoding, trailing_trimmable,
    trim_end_units, trim_start_units, trim_units};
use vstd::prelude::*;
use vstd::slice::slice_subrange;
use vstd::std_specs::convert::FromSpecImpl;
use vstd::string::StrSliceExecFns;

verus! {

broadcast use vstd::string::is_ascii_spec_bytes;

/// The four shapes of a borrowed slice.
#[derive(Debug, Clone, Copy)]
pub enum JsStringSliceVariant<'a> {
    /// ASCII bytes, one per code unit.
    U8Ascii(&'a [u8]),
    /// Narrow text that is not all ASCII, with the length of its UTF-16 encoding.
    U8NonAscii(&'a str, usize),
    /// Code units that are all ASCII.
    U16Ascii(&'a [u16]),
    /// Code units of which at least one is not ASCII.
    U16NonAscii(&'a [u16]),
}

impl<'a> View for JsStringSliceVariant<'a> {
    type V = Seq<u16>;

    /// The code units that the slice stands for.
    open spec fn view(&self) -> Seq<u16> {
        match *self {
            JsStringSliceVariant::U8Ascii(bytes) => widen(bytes@),
            JsStringSliceVariant::U8NonAscii(text, _) => encode_utf16(text@),
            JsStringSliceVariant::U16Ascii(units) => units@,
            JsStringSliceVariant::U16NonAscii(units) => units@,
        }
    }
}

impl<'a> JsStringSliceVariant<'a> {
    /// The shape fits the content.
    pub open spec fn wf(self) -> bool {
        match self {
            JsStringSliceVariant::U8Ascii(bytes) => is_ascii_bytes(bytes@),
            JsStringSliceVariant::U8NonAscii(text, len) => !vstd::string::is_ascii(text) && len
                == encode_utf16(text@).len(),
            JsStringSliceVariant::U16Ascii(units) => is_ascii_units(units@),
            JsStringSliceVariant::U16NonAscii(units) => !is_ascii_units(units@),
        }
    }
}

/// A borrowed slice of a string, classified as ASCII or not when it was made.
#[derive(Debug, Clone, Copy)]
pub struct JsStringSlice<'a> {
    inner: JsStringSliceVariant<'a>,
}

impl<'a> View for JsStringSlice<'a> {
    type V = Seq<u16>;

    /// The code units of the slice.
    closed spec fn view(&self) -> Seq<u16> {
        self.inner@
    }
}

impl<'a> JsStringSlice<'a> {
    #[verifier::type_invariant]
    spec fn well_formed(self) -> bool {
        self.inner.wf()
    }

    pub(crate) fn u8_ascii_unchecked(value: &'a [u8]) -> (r: Self)
        requires
            is_ascii_bytes(value@),
        ensures
            r@ == widen(value@),
    {
        Self { inner: JsStringSliceVariant::U8Ascii(value) }
    }

    pub(crate) fn u16_ascii_unchecked(value: &'a [u16]) -> (r: Self)
        requires
            is_ascii_units(value@),
        ensures
            r@ == value@,
    {
        Self { inner: JsStringSliceVariant::U16Ascii(value) }
    }

    pub(crate) fn u8_non_ascii_unchecked(value: &'a str) -> (r: Self)
        requires
            !vstd::string::is_ascii(value),
        ensures
            r@ == encode_utf16(value@),
    {
        let len = utf16_len(value);
        Self { inner: JsStringSliceVariant::U8NonAscii(value, len) }
    }

    pub(crate) fn u16_non_ascii_unchecked(value: &'a [u16]) -> (r: Self)
        requires
            !is_ascii_units(value@),
        ensures
            r@ == value@,
    {
        Self { inner: JsStringSliceVariant::U16NonAscii(value) }
    }

    /// Gets the shape of the slice.
    pub(crate) fn variant(self) -> (r: JsStringSliceVariant<'a>)
        ensures
            r.wf(),
            r@ == self@,
    {
        proof {
            use_type_invariant(self);
        }
        self.inner
    }

    /// Gets the length of the slice in code units. For narrow text that is not ASCII, this is
    /// the length of its UTF-16 encoding, not its length in bytes.
    pub fn len(&self) -> (r: usize)
        ensures
            r == self@.len(),
    {
        match self.variant() {
            JsStringSliceVariant::U8Ascii(s) => s.len(),
            JsStringSliceVariant::U8NonAscii(_, len) => len,
            JsStringSliceVariant::U16NonAscii(s) => s.len(),
            JsStringSliceVariant::U16Ascii(s) => s.len(),
        }
    }

    /// Checks if the slice is all ASCII.
    pub fn is_ascii(&self) -> (r: bool)
        ensures
            r == is_ascii_units(self@),
    {
        match self.variant() {
            JsStringSliceVariant::U8Ascii(s) => {
                proof {
                    lemma_widen_ascii(s@);
                }
                true
            },
            JsStringSliceVariant::U8NonAscii(s, _) => {
                proof {
                    lemma_encode_utf16_ascii(s@);
                }
                false
            },
            JsStringSliceVariant::U16Ascii(_) => true,
            JsStringSliceVariant::U16NonAscii(_) => false,
        }
    }

    /// Trims both leading and trailing space.
    pub fn trim(&self) -> (r: Self)
        ensures
            r@ == trim_units(self@),
    {
        self.trim_start().trim_end()
    }

    /// Trims all leading space. The result views the rest of the same source, classified by
    /// what is left; where nothing is left it is empty and ASCII.
    pub fn trim_start(&self) -> (r: JsStringSlice<'a>)
        ensures
            r@ == trim_start_units(self@),
    {
        match self.variant() {
            JsStringSliceVariant::U8Ascii(s) => {
                let left = leading_trimmable_bytes(s);
                let rest = slice_subrange(s, left, s.len());
                assert(widen(rest@) =~= widen(s@).skip(left as int));
                JsStringSlice::u8_ascii_unchecked(rest)
            },
            JsStringSliceVariant::U8NonAscii(s, _) => {
                let total = s.unicode_len();
                let left = leading_trimmable_chars(s, total);
                let rest = s.substring_char(left, total);
                proof {
                    lemma_trim_start_of_encoding(s@, left as int);
                    assert(s@.subrange(left as int, total as int) =~= s@.skip(left as int));
                }
                JsStringSlice::from(rest)
            },
            JsStringSliceVariant::U16Ascii(s) => {
                let left = leading_trimmable_units(s);
                let rest = slice_subrange(s, left, s.len());
                assert(rest@ =~= s@.skip(left as int));
                JsStringSlice::u16_ascii_unchecked(rest)
            },
            JsStringSliceVariant::U16NonAscii(s) => {
                let left = leading_trimmable_units(s);
                let rest = slice_subrange(s, left, s.len());
                assert(rest@ =~= s@.skip(left as int));
                JsStringSlice::from(rest)
            },
        }
    }

    /// Trims all trailing space. The result views the rest of the same source, classified by
    /// what is left; where nothing is left it is empty and ASCII.
    pub fn trim_end(&self) -> (r: JsStringSlice<'a>)
        ensures
            r@ == trim_end_units(self@),
    {
        match self.variant() {
            JsStringSliceVariant::U8Ascii(s) => {
                let right = s.len() - trailing_trimmable_bytes(s);
                let rest = slice_subrange(s, 0, right);
                assert(widen(rest@) =~= widen(s@).take(right as int));
                JsStringSlice::u8_ascii_unchecked(rest)
            },
            JsStringSliceVariant::U8NonAscii(s, _) => {
                let total = s.unicode_len();
                let right = total - trailing_trimmable_chars(s, total);
                let rest = s.substring_char(0, right);
                proof {
                    lemma_trim_end_of_encoding(s@, total - right);
                    assert(s@.subrange(0, right as int) =~= s@.take(right as int));
                }
                JsStringSlice::from(rest)
            },
            JsStringSliceVariant::U16Ascii(s) => {
                let right = s.len() - trailing_trimmable_units(s);
                let rest = slice_subrange(s, 0, right);
                assert(rest@ =~= s@.take(right as int));
                JsStringSlice::u16_ascii_unchecked(rest)
            },
            JsStringSliceVariant::U16NonAscii(s) => {
                let right = s.len() - trailing_trimmable_units(s);
                let rest = slice_subrange(s, 0, right);
                assert(rest@ =~= s@.take(right as int));
                JsStringSlice::from(rest)
            },
        }
    }
}

impl<'a> JsStringSlice<'a> {
    /// Creates an iterator over the code units of the slice.
    pub fn iter(self) -> (r: Iter<'a>)
        ensures
            r.remaining() == self@,
    {
        Iter::new(self)
    }
}

/// Counts the trimmable bytes at the start of ASCII storage.
fn leading_trimmable_bytes(s: &[u8]) -> (r: usize)
    ensures
        r == leading_trimmable(widen(s@)),
        r <= s@.len(),
{
    let mut left: usize = 0;
    while left < s.len() && is_trimmable_unit(s[left] as u16)
        invariant
            left <= s.len(),
            forall|i: int| 0 <= i < left ==> is_trimmable(#[trigger] widen(s@)[i] as u32),
        decreases s.len() - left,
    {
        left += 1;
    }
    proof {
        lemma_leading_trimmable(widen(s@), left as int);
    }
    left
}

/// Counts the trimmable bytes at the end of ASCII storage.
fn trailing_trimmable_bytes(s: &[u8]) -> (r: usize)
    ensures
        r == trailing_trimmable(widen(s@)),
        r <= s@.len(),
{
    let mut right: usize = s.len();
    while right > 0 && is_trimmable_unit(s[right - 1] as u16)
        invariant
            right <= s.len(),
            forall|i: int| right <= i < s.len() ==> is_trimmable(#[trigger] widen(s@)[i] as u32),
        decreases right,
    {
        right -= 1;
    }
    proof {
        lemma_trailing_trimmable(widen(s@), s.len() - right);
    }
    s.len() - right
}

/// Counts the trimmable code units at the start of a slice.
fn leading_trimmable_units(s: &[u16]) -> (r: usize)
    ensures
        r == leading_trimmable(s@),
        r <= s@.len(),
{
    let mut left: usize = 0;
    while left < s.len() && is_trimmable_unit(s[left])
        invariant
            left <= s.len(),
            forall|i: int| 0 <= i < left ==> is_trimmable(#[trigger] s@[i] as u32),
        decreases s.len() - left,
    {
        left += 1;
    }
    proof {
        lemma_leading_trimmable(s@, left as int);
    }
    left
}

/// Counts the trimmable code units at the end of a slice.
fn trailing_trimmable_units(s: &[u16]) -> (r: usize)
    ensures
        r == trailing_trimmable(s@),
        r <= s@.len(),
{
    let mut right: usize = s.len();
    while right > 0 && is_trimmable_unit(s[right - 1])
        invariant
            right <= s.len(),
            forall|i: int| right <= i < s.len() ==> is_trimmable(#[trigger] s@[i] as u32),
        decreases right,
    {
        right -= 1;
    }
    proof {
        lemma_trailing_trimmable(s@, s.len() - right);
    }
    s.len() - right
}

/// Counts the trimmable characters at the start of a text of `total` characters.
fn leading_trimmable_chars(s: &str, total: usize) -> (r: usize)
    requires
        total == s@.len(),
    ensures
        r <= s@.len(),
        forall|i: int| 0 <= i < r ==> is_trimmable(#[trigger] s@[i] as u32),
        r == s@.len() || !is_trimmable(s@[r as int] as u32),
{
    let mut left: usize = 0;
    let mut done = false;
    for c in it: s.chars()
        invariant
            it.seq() == s@,
            total == s@.len(),
            left <= it.index(),
            !done ==> left == it.index(),
            done ==> left < s@.len() && !is_trimmable(s@[left as int] as u32),
            forall|i: int| 0 <= i < left ==> is_trimmable(#[trigger] s@[i] as u32),
    {
        if !done {
            if is_trimmable_whitespace(c) {
                left += 1;
            } else {
                done = true;
            }
        }
    }
    left
}

/// Counts the trimmable characters at the end of a text of `total` characters.
fn trailing_trimmable_chars(s: &str, total: usize) -> (r: usize)
    requires
        total == s@.len(),
    ensures
        r <= s@.len(),
        forall|i: int| s@.len() - r <= i < s@.len() ==> is_trimmable(#[trigger] s@[i] as u32),
        r == s@.len() || !is_trimmable(s@[s@.len() - r - 1] as u32),
{
    let mut seen: usize = 0;
    let mut keep: usize = 0;
    for c in it: s.chars()
        invariant
            it.seq() == s@,
            total == s@.len(),
            seen == it.index(),
            keep <= seen,
            forall|i: int| keep <= i < seen ==> is_trimmable(#[trigger] s@[i] as u32),
            keep == 0 || !is_trimmable(s@[keep - 1] as u32),
    {
        seen += 1;
        if !is_trimmable_whitespace(c) {
            keep = seen;
        }
    }
    total - keep
}

impl<'a> From<JsStr<'a>> for JsStringSlice<'a> {
    /// Views the same code units, with the classification of the view.
    fn from(value: JsStr<'a>) -> (r: Self)
        ensures
            r@ == value@,
    {
        match value.variant() {
            JsStrVariant::Ascii(s) => Self::u8_ascii_unchecked(s),
            JsStrVariant::U16(s) => Self::u16_non_ascii_unchecked(s),
        }
    }
}

impl<'a> FromSpecImpl<JsStr<'a>> for JsStringSlice<'a> {
    open spec fn obeys_from_spec() -> bool {
        false
    }

    open spec fn from_spec(value: JsStr<'a>) -> Self {
        arbitrary()
    }
}

impl<'a> From<&'a str> for JsStringSlice<'a> {
    /// Views narrow text as the code units of its UTF-16 encoding.
    fn from(value: &'a str) -> (r: Self)
        ensures
            r@ == encode_utf16(value@),
    {
        if value.is_ascii() {
            let bytes = value.as_bytes();
            proof {
                lemma_encode_utf16_ascii(value@);
                vstd::utf8::is_ascii_chars_nat_bound(value@);
                assert(is_ascii_bytes(bytes@));
                assert(widen(bytes@) =~= encode_utf16(value@));
            }
            return Self::u8_ascii_unchecked(bytes);
        }
        Self::u8_non_ascii_unchecked(value)
    }
}

impl<'a> FromSpecImpl<&'a str> for JsStringSlice<'a> {
    open spec fn obeys_from_spec() -> bool {
        false
    }

    open spec fn from_spec(value: &'a str) -> Self {
        arbitrary()
    }
}

impl<'a> From<&'a [u16]> for JsStringSlice<'a> {
    /// Views the code units, classified by a scan.
    fn from(s: &'a [u16]) -> (r: Self)
        ensures
            r@ == s@,
    {
        if is_ascii(s) {
            return Self::u16_ascii_unchecked(s);
        }
        Self::u16_non_ascii_unchecked(s)
    }
}

impl<'a> FromSpecImpl<&'a [u16]> for JsStringSlice<'a> {
    open spec fn obeys_from_spec() -> bool {
        false
    }

    open spec fn from_spec(s: &'a [u16]) -> Self {
        arbitrary()
    }
}

} // verus!
