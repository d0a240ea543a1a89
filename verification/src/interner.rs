//! A string as the interner of identifiers takes it: a borrowed reference that holds either
//! text or code units.

use crate::js_str::{JsStr, JsStrVariant};
use crate::js_string::JsString;
use crate::unicode::{encode_utf16, is_ascii_bytes, lemma_char_range, lemma_encode_utf16_ascii,
    widen};
use boa_interner::JStrRef;
use vstd::prelude::*;
use vstd::std_specs::convert::FromSpecImpl;
use vstd::string::StringSliceAdditionalSpecFns;

verus! {

/// `JStrRef` of `boa_interner`: a reference to a string that the interner can store, held as
/// text or as code units.
#[verifier::external_type_specification]
#[verifier::external_body]
pub struct ExJStrRef<'a>(JStrRef<'a>);

/// The code units that a `JStrRef` stands for: the code units that it holds, or the UTF-16
/// encoding of the text that it holds.
pub uninterp spec fn jstr_ref_units(reference: JStrRef<'_>) -> Seq<u16>;

/// `JStrRef::from` of `boa_interner`, for text: the reference holds the text, which the
/// interner stores as it is and as its UTF-16 encoding.
#[verifier::external_body]
fn text_ref<'a>(text: &'a str) -> (r: JStrRef<'a>)
    ensures
        jstr_ref_units(r) == encode_utf16(text@),
{
    JStrRef::from(text)
}

/// `JStrRef::from` of `boa_interner`, for code units: the reference holds the code units.
#[verifier::external_body]
fn units_ref<'a>(units: &'a [u16]) -> (r: JStrRef<'a>)
    ensures
        jstr_ref_units(r) == units@,
{
    JStrRef::from(units)
}

/// The characters that ASCII bytes stand for.
pub open spec fn ascii_chars(bytes: Seq<u8>) -> Seq<char> {
    Seq::new(bytes.len(), |i: int| bytes[i] as char)
}

/// `Utf8Error` of the standard library: the error of reading bytes that are not UTF-8 as text.
#[verifier::external_type_specification]
#[verifier::external_body]
pub struct ExUtf8Error(std::str::Utf8Error);

/// `std::str::from_utf8` of the standard library: the text whose UTF-8 encoding the bytes
/// are, where they are one. ASCII bytes are, and the characters of their text are the bytes.
#[verifier::external_body]
fn text_of_bytes<'a>(bytes: &'a [u8]) -> (r: Result<&'a str, std::str::Utf8Error>)
    ensures
        r is Ok || !is_ascii_bytes(bytes@),
        r matches Ok(text) ==> text.spec_bytes() == bytes@,
        r matches Ok(text) ==> is_ascii_bytes(bytes@) ==> text@ == ascii_chars(bytes@),
{
    std::str::from_utf8(bytes)
}

impl<'a> From<JsStr<'a>> for JStrRef<'a> {
    /// Refers to a view as the interner takes it: to ASCII storage as text, and to any other
    /// storage as code units.
    fn from(value: JsStr<'a>) -> (r: Self)
        ensures
            jstr_ref_units(r) == value@,
    {
        match value.variant() {
            JsStrVariant::Ascii(bytes) => {
                let text = text_of_bytes(bytes).unwrap();
                proof {
                    assert forall|i: int| 0 <= i < text@.len() implies '\0' <= (
                    #[trigger] text@[i]) <= '\u{7f}' by {
                        lemma_char_range(text@[i]);
                        assert(bytes@[i] < 0x80);
                    }
                    lemma_encode_utf16_ascii(text@);
                    assert(encode_utf16(text@) =~= widen(bytes@));
                }
                text_ref(text)
            },
            JsStrVariant::U16(units) => units_ref(units),
        }
    }
}

impl<'a> FromSpecImpl<JsStr<'a>> for JStrRef<'a> {
    open spec fn obeys_from_spec() -> bool {
        false
    }

    open spec fn from_spec(value: JsStr<'a>) -> Self {
        arbitrary()
    }
}

impl JsString {
    /// Refers to the string as the interner takes it.
    pub fn as_jstr_ref(&self) -> (r: JStrRef<'_>)
        ensures
            jstr_ref_units(r) == self@,
    {
        JStrRef::from(self.as_str())
    }
}

} // verus!
