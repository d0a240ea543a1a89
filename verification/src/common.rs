//! The table of well-known strings. A string whose content is in the table is never
//! allocated: it is held as the index of its entry.

use crate::compare::eq_bytes;
use crate::js_string::JsString;
use crate::unicode::{encode_utf16, is_ascii_bytes, is_ascii_units, lemma_encode_utf16_ascii,
    lemma_widen_ascii, widen};
use vstd::prelude::*;
use vstd::utf8::{encode_utf8, is_ascii_chars};

verus! {

broadcast use {vstd::string::is_ascii_spec_bytes, vstd::utf8::encode_utf8_decode_utf8};

/// The number of entries of the table.
pub const STATIC_COUNT: usize = 32;

/// The text of an entry of the table.
pub open spec fn static_text(index: int) -> Seq<char> {
    if index == 0 {
        ""@
    } else if index == 1 {
        ","@
    } else if index == 2 {
        ":"@
    } else if index == 3 {
        "name"@
    } else if index == 4 {
        "length"@
    } else if index == 5 {
        "arguments"@
    } else if index == 6 {
        "prototype"@
    } else if index == 7 {
        "constructor"@
    } else if index == 8 {
        "return"@
    } else if index == 9 {
        "throw"@
    } else if index == 10 {
        "global"@
    } else if index == 11 {
        "globalThis"@
    } else if index == 12 {
        "null"@
    } else if index == 13 {
        "undefined"@
    } else if index == 14 {
        "number"@
    } else if index == 15 {
        "string"@
    } else if index == 16 {
        "symbol"@
    } else if index == 17 {
        "bigint"@
    } else if index == 18 {
        "object"@
    } else if index == 19 {
        "function"@
    } else if index == 20 {
        "value"@
    } else if index == 21 {
        "get"@
    } else if index == 22 {
        "set"@
    } else if index == 23 {
        "writable"@
    } else if index == 24 {
        "enumerable"@
    } else if index == 25 {
        "configurable"@
    } else if index == 26 {
        "Object"@
    } else if index == 27 {
        "Array"@
    } else if index == 28 {
        "String"@
    } else if index == 29 {
        "Number"@
    } else if index == 30 {
        "Infinity"@
    } else if index == 31 {
        "NaN"@
    } else {
        Seq::empty()
    }
}

/// The bytes of an entry of the table.
pub open spec fn static_bytes(index: int) -> Seq<u8> {
    encode_utf8(static_text(index))
}

/// The code units of an entry of the table.
pub open spec fn static_units(index: int) -> Seq<u16> {
    widen(static_bytes(index))
}

/// The content is that of an entry of the table.
pub open spec fn is_static_content(units: Seq<u16>) -> bool {
    exists|index: int| 0 <= index < STATIC_COUNT && #[trigger] static_units(index) == units
}

/// The entry is the first one of its content.
pub open spec fn is_first_entry(index: int) -> bool {
    forall|earlier: int|
        0 <= earlier < index ==> #[trigger] static_units(earlier) != static_units(index)
}

/// Every entry of the table is ASCII text.
pub proof fn lemma_static_text_ascii(index: int)
    requires
        0 <= index < STATIC_COUNT,
    ensures
        is_ascii_chars(static_text(index)),
{
    if index == 0 {
        reveal_strlit("");
    } else if index == 1 {
        reveal_strlit(",");
    } else if index == 2 {
        reveal_strlit(":");
    } else if index == 3 {
        reveal_strlit("name");
    } else if index == 4 {
        reveal_strlit("length");
    } else if index == 5 {
        reveal_strlit("arguments");
    } else if index == 6 {
        reveal_strlit("prototype");
    } else if index == 7 {
        reveal_strlit("constructor");
    } else if index == 8 {
        reveal_strlit("return");
    } else if index == 9 {
        reveal_strlit("throw");
    } else if index == 10 {
        reveal_strlit("global");
    } else if index == 11 {
        reveal_strlit("globalThis");
    } else if index == 12 {
        reveal_strlit("null");
    } else if index == 13 {
        reveal_strlit("undefined");
    } else if index == 14 {
        reveal_strlit("number");
    } else if index == 15 {
        reveal_strlit("string");
    } else if index == 16 {
        reveal_strlit("symbol");
    } else if index == 17 {
        reveal_strlit("bigint");
    } else if index == 18 {
        reveal_strlit("object");
    } else if index == 19 {
        reveal_strlit("function");
    } else if index == 20 {
        reveal_strlit("value");
    } else if index == 21 {
        reveal_strlit("get");
    } else if index == 22 {
        reveal_strlit("set");
    } else if index == 23 {
        reveal_strlit("writable");
    } else if index == 24 {
        reveal_strlit("enumerable");
    } else if index == 25 {
        reveal_strlit("configurable");
    } else if index == 26 {
        reveal_strlit("Object");
    } else if index == 27 {
        reveal_strlit("Array");
    } else if index == 28 {
        reveal_strlit("String");
    } else if index == 29 {
        reveal_strlit("Number");
    } else if index == 30 {
        reveal_strlit("Infinity");
    } else if index == 31 {
        reveal_strlit("NaN");
    }
}

/// Every entry of the table is stored one byte per character, and its code units are the
/// UTF-16 encoding of its text.
pub proof fn lemma_static_entry(index: int)
    requires
        0 <= index < STATIC_COUNT,
    ensures
        is_ascii_bytes(static_bytes(index)),
        is_ascii_units(static_units(index)),
        static_units(index) == encode_utf16(static_text(index)),
        static_units(index).len() == static_bytes(index).len(),
{
    lemma_ascii_text(static_text(index));
    lemma_static_text_ascii(index);
    lemma_widen_ascii(static_bytes(index));
}

/// ASCII text has the same units in UTF-8 and in UTF-16.
pub proof fn lemma_ascii_text(chars: Seq<char>)
    ensures
        is_ascii_chars(chars) ==> is_ascii_bytes(encode_utf8(chars)) && widen(encode_utf8(chars))
            == encode_utf16(chars),
{
    if is_ascii_chars(chars) {
        vstd::utf8::is_ascii_chars_encode_utf8(chars);
        vstd::utf8::is_ascii_chars_nat_bound(chars);
        lemma_encode_utf16_ascii(chars);
        let bytes = encode_utf8(chars);
        assert forall|i: int| 0 <= i < bytes.len() implies (#[trigger] bytes[i]) < 0x80 by {
            assert(chars[i] as u8 == bytes[i]);
        }
        assert(widen(bytes) =~= encode_utf16(chars));
    }
}

/// Text whose bytes no entry of the table holds is encoded as content that is not in the
/// table.
pub proof fn lemma_text_not_static(chars: Seq<char>)
    requires
        forall|index: int|
            0 <= index < STATIC_COUNT ==> #[trigger] static_bytes(index) != encode_utf8(chars),
    ensures
        !is_static_content(encode_utf16(chars)),
{
    assert forall|index: int| 0 <= index < STATIC_COUNT implies #[trigger] static_units(index)
        != encode_utf16(chars) by {
        if static_units(index) == encode_utf16(chars) {
            lemma_static_entry(index);
            lemma_encode_utf16_ascii(chars);
            lemma_ascii_text(chars);
            assert(static_bytes(index) != encode_utf8(chars));
            lemma_widen_injective(static_bytes(index), encode_utf8(chars));
        }
    }
}

/// Different bytes stand for different code units.
pub proof fn lemma_widen_injective(a: Seq<u8>, b: Seq<u8>)
    ensures
        widen(a) == widen(b) ==> a == b,
{
    if widen(a) == widen(b) {
        assert(a.len() == widen(a).len());
        assert(b.len() == widen(b).len());
        assert forall|i: int| 0 <= i < a.len() implies a[i] == b[i] by {
            assert(widen(a)[i] == widen(b)[i]);
        }
        assert(a =~= b);
    }
}

/// The well-known strings of the engine.
pub struct StaticJsStrings;

impl StaticJsStrings {
    /// Gets the text of the entry at `index`.
    pub fn text(index: usize) -> (r: &'static str)
        requires
            index < STATIC_COUNT,
        ensures
            r@ == static_text(index as int),
    {
        match index {
            1 => ",",
            2 => ":",
            3 => "name",
            4 => "length",
            5 => "arguments",
            6 => "prototype",
            7 => "constructor",
            8 => "return",
            9 => "throw",
            10 => "global",
            11 => "globalThis",
            12 => "null",
            13 => "undefined",
            14 => "number",
            15 => "string",
            16 => "symbol",
            17 => "bigint",
            18 => "object",
            19 => "function",
            20 => "value",
            21 => "get",
            22 => "set",
            23 => "writable",
            24 => "enumerable",
            25 => "configurable",
            26 => "Object",
            27 => "Array",
            28 => "String",
            29 => "Number",
            30 => "Infinity",
            31 => "NaN",
            _ => "",
        }
    }

    /// Gets the text of the entry at `index`, if there is one.
    pub fn get(index: usize) -> (r: Option<&'static str>)
        ensures
            match r {
                Some(text) => index < STATIC_COUNT && text@ == static_text(index as int),
                None => index >= STATIC_COUNT,
            },
    {
        if index < STATIC_COUNT {
            Some(Self::text(index))
        } else {
            None
        }
    }

    /// The empty string.
    pub fn empty_string() -> (r: JsString)
        ensures
            r@ == Seq::<u16>::empty(),
            r.interned(),
    {
        proof {
            reveal_strlit("");
            assert(static_units(0) =~= Seq::<u16>::empty());
        }
        JsString::from_static(0)
    }

    /// Gets the well-known string of the given text, if the text is in the table.
    pub fn get_string(text: &str) -> (r: Option<JsString>)
        ensures
            match r {
                Some(string) => string@ == encode_utf16(text@) && string.interned(),
                None => !is_static_content(encode_utf16(text@)),
            },
    {
        match Self::lookup(text.as_bytes()) {
            Some(index) => {
                proof {
                    lemma_static_entry(index as int);
                    assert(vstd::utf8::decode_utf8(encode_utf8(text@)) == text@);
                    assert(vstd::utf8::decode_utf8(encode_utf8(static_text(index as int)))
                        == static_text(index as int));
                    assert forall|earlier: int| 0 <= earlier < index implies (
                    #[trigger] static_units(earlier)) != static_units(index as int) by {
                        assert(static_bytes(earlier) != static_bytes(index as int));
                        lemma_widen_injective(static_bytes(earlier), static_bytes(index as int));
                    }
                }
                Some(JsString::from_static(index))
            },
            None => {
                proof {
                    lemma_text_not_static(text@);
                }
                None
            },
        }
    }

    /// Finds the first entry of the table that holds the given bytes.
    pub fn lookup(bytes: &[u8]) -> (r: Option<usize>)
        ensures
            match r {
                Some(index) => index < STATIC_COUNT && static_bytes(index as int) == bytes@
                    && forall|earlier: int|
                    0 <= earlier < index ==> #[trigger] static_bytes(earlier) != bytes@,
                None => forall|index: int|
                    0 <= index < STATIC_COUNT ==> #[trigger] static_bytes(index) != bytes@,
            },
    {
        let mut index: usize = 0;
        while index < STATIC_COUNT
            invariant
                index <= STATIC_COUNT,
                forall|earlier: int|
                    0 <= earlier < index ==> #[trigger] static_bytes(earlier) != bytes@,
            decreases STATIC_COUNT - index,
        {
            if eq_bytes(Self::text(index).as_bytes(), bytes) {
                return Some(index);
            }
            index += 1;
        }
        None
    }
}

} // verus!
