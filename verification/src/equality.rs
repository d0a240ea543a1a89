//! Equality of an owned string with another, with a borrowed view, with code units, and with
//! narrow text. Two strings are equal when they hold the same code units, whichever storage
//! holds them.

use crate::common::{lemma_ascii_text, lemma_widen_injective};
use crate::compare::{eq_bytes, eq_bytes_units, eq_units};
use crate::js_str::{JsStr, JsStrVariant};
use crate::js_string::JsString;
use crate::unicode::{encode_utf16, lemma_encode_utf16_ascii, lemma_widen_ascii, push_str_units};
use vstd::prelude::*;
use vstd::std_specs::cmp::PartialEqSpecImpl;

verus! {

broadcast use vstd::string::is_ascii_spec_bytes;

impl PartialEq for JsString {
    /// Two strings are equal when they hold the same code units.
    fn eq(&self, other: &Self) -> (r: bool) {
        self.as_str() == other.as_str()
    }
}

impl PartialEqSpecImpl for JsString {
    open spec fn obeys_eq_spec() -> bool {
        true
    }

    open spec fn eq_spec(&self, other: &Self) -> bool {
        self@ == other@
    }
}

impl Eq for JsString {

}

impl<'a> PartialEq<JsStr<'a>> for JsString {
    /// A string equals a view that holds the same code units.
    fn eq(&self, other: &JsStr<'a>) -> (r: bool) {
        self.as_str() == *other
    }
}

impl<'a> PartialEqSpecImpl<JsStr<'a>> for JsString {
    open spec fn obeys_eq_spec() -> bool {
        true
    }

    open spec fn eq_spec(&self, other: &JsStr<'a>) -> bool {
        self@ == other@
    }
}

impl<'a> PartialEq<JsString> for JsStr<'a> {
    /// A view equals a string that holds the same code units.
    fn eq(&self, other: &JsString) -> (r: bool) {
        *self == other.as_str()
    }
}

impl<'a> PartialEqSpecImpl<JsString> for JsStr<'a> {
    open spec fn obeys_eq_spec() -> bool {
        true
    }

    open spec fn eq_spec(&self, other: &JsString) -> bool {
        self@ == other@
    }
}

impl PartialEq<[u16]> for JsString {
    /// A string equals the code units that it holds.
    fn eq(&self, other: &[u16]) -> (r: bool) {
        match self.as_str().variant() {
            JsStrVariant::Ascii(bytes) => eq_bytes_units(bytes, other),
            JsStrVariant::U16(units) => eq_units(units, other),
        }
    }
}

impl PartialEqSpecImpl<[u16]> for JsString {
    open spec fn obeys_eq_spec() -> bool {
        true
    }

    open spec fn eq_spec(&self, other: &[u16]) -> bool {
        self@ == other@
    }
}

impl PartialEq<JsString> for [u16] {
    /// Code units equal the string that holds them.
    fn eq(&self, other: &JsString) -> (r: bool) {
        match other.as_str().variant() {
            JsStrVariant::Ascii(bytes) => eq_bytes_units(bytes, self),
            JsStrVariant::U16(units) => eq_units(units, self),
        }
    }
}

impl PartialEqSpecImpl<JsString> for [u16] {
    open spec fn obeys_eq_spec() -> bool {
        true
    }

    open spec fn eq_spec(&self, other: &JsString) -> bool {
        self@ == other@
    }
}

impl<const N: usize> PartialEq<[u16; N]> for JsString {
    /// A string equals the array of the code units that it holds.
    fn eq(&self, other: &[u16; N]) -> (r: bool) {
        match self.as_str().variant() {
            JsStrVariant::Ascii(bytes) => eq_bytes_units(bytes, other.as_slice()),
            JsStrVariant::U16(units) => eq_units(units, other.as_slice()),
        }
    }
}

impl<const N: usize> PartialEqSpecImpl<[u16; N]> for JsString {
    open spec fn obeys_eq_spec() -> bool {
        true
    }

    open spec fn eq_spec(&self, other: &[u16; N]) -> bool {
        self@ == other@
    }
}

impl<const N: usize> PartialEq<JsString> for [u16; N] {
    /// An array of code units equals the string that holds them.
    fn eq(&self, other: &JsString) -> (r: bool) {
        match other.as_str().variant() {
            JsStrVariant::Ascii(bytes) => eq_bytes_units(bytes, self.as_slice()),
            JsStrVariant::U16(units) => eq_units(units, self.as_slice()),
        }
    }
}

impl<const N: usize> PartialEqSpecImpl<JsString> for [u16; N] {
    open spec fn obeys_eq_spec() -> bool {
        true
    }

    open spec fn eq_spec(&self, other: &JsString) -> bool {
        self@ == other@
    }
}

/// Tells whether a view holds the UTF-16 encoding of a text.
fn eq_text(value: JsStr<'_>, text: &str) -> (r: bool)
    ensures
        r == (value@ == encode_utf16(text@)),
{
    match value.variant() {
        JsStrVariant::Ascii(bytes) => {
            proof {
                lemma_encode_utf16_ascii(text@);
                lemma_widen_ascii(bytes@);
            }
            if !text.is_ascii() {
                return false;
            }
            proof {
                lemma_ascii_text(text@);
                lemma_widen_injective(bytes@, vstd::utf8::encode_utf8(text@));
            }
            eq_bytes(bytes, text.as_bytes())
        },
        JsStrVariant::U16(units) => {
            let mut encoded: Vec<u16> = Vec::new();
            push_str_units(&mut encoded, text);
            assert(encoded@ =~= encode_utf16(text@));
            eq_units(units, encoded.as_slice())
        },
    }
}

impl PartialEq<str> for JsString {
    /// A string equals the text whose UTF-16 encoding it holds. A string that holds an
    /// unpaired surrogate equals no text.
    fn eq(&self, other: &str) -> (r: bool) {
        eq_text(self.as_str(), other)
    }
}

impl PartialEqSpecImpl<str> for JsString {
    open spec fn obeys_eq_spec() -> bool {
        true
    }

    open spec fn eq_spec(&self, other: &str) -> bool {
        self@ == encode_utf16(other@)
    }
}

impl PartialEq<JsString> for str {
    /// A text equals the string that holds its UTF-16 encoding.
    fn eq(&self, other: &JsString) -> (r: bool) {
        eq_text(other.as_str(), self)
    }
}

impl PartialEqSpecImpl<JsString> for str {
    open spec fn obeys_eq_spec() -> bool {
        true
    }

    open spec fn eq_spec(&self, other: &JsString) -> bool {
        other@ == encode_utf16(self@)
    }
}

} // verus!
