//! The owned string: immutable, reference counted, and held as the index of a table entry
//! where its content is well known.

use crate::common::{is_first_entry, is_static_content, lemma_static_entry,
    lemma_widen_injective, static_bytes, static_units, StaticJsStrings, STATIC_COUNT};
use crate::builder::{append_ascii, append_units, max_block_len, push_units, push_widened};
use crate::iter::Iter;
use crate::js_slice::JsStringSlice;
use crate::js_str::{JsStr, JsStrVariant};
use crate::unicode::{is_ascii_bytes, is_ascii_units, widen};
use crate::whitespace::{trim_end_units, trim_start_units, trim_units};
use std::rc::Rc;
use vstd::prelude::*;

verus! {

broadcast use vstd::string::is_ascii_spec_bytes;

/// The heap block of a string: its code units, in the storage that fits them.
#[derive(Debug)]
pub(crate) enum RawJsString {
    Ascii(Vec<u8>),
    U16(Vec<u16>),
}

impl RawJsString {
    /// The code units that the block holds.
    pub(crate) open spec fn units(&self) -> Seq<u16> {
        match self {
            RawJsString::Ascii(bytes) => widen(bytes@),
            RawJsString::U16(units) => units@,
        }
    }

    /// The storage fits the content.
    pub(crate) open spec fn wf(&self) -> bool {
        match self {
            RawJsString::Ascii(bytes) => is_ascii_bytes(bytes@),
            RawJsString::U16(units) => !is_ascii_units(units@),
        }
    }
}

impl RawJsString {
    /// The block stores one byte per code unit.
    pub(crate) open spec fn is_bytes(&self) -> bool {
        self is Ascii
    }

    /// A block is being filled: byte storage holds ASCII only.
    pub(crate) open spec fn filling(&self) -> bool {
        match self {
            RawJsString::Ascii(bytes) => is_ascii_bytes(bytes@),
            RawJsString::U16(_) => true,
        }
    }

    /// Makes an empty block with room for `str_len` code units.
    pub(crate) fn with_capacity(str_len: usize, ascii: bool) -> (r: Self)
        requires
            str_len <= max_block_len(ascii),
        ensures
            r.units() == Seq::<u16>::empty(),
            r.is_bytes() <==> ascii,
            r.filling(),
    {
        if ascii {
            let data: Vec<u8> = Vec::with_capacity(str_len);
            assert(widen(data@) =~= Seq::<u16>::empty());
            RawJsString::Ascii(data)
        } else {
            RawJsString::U16(Vec::with_capacity(str_len))
        }
    }

    /// Makes an empty block that grows as it is filled.
    pub(crate) fn growing(ascii: bool) -> (r: Self)
        ensures
            r.units() == Seq::<u16>::empty(),
            r.is_bytes() <==> ascii,
            r.filling(),
    {
        if ascii {
            let data: Vec<u8> = Vec::new();
            assert(widen(data@) =~= Seq::<u16>::empty());
            RawJsString::Ascii(data)
        } else {
            RawJsString::U16(Vec::new())
        }
    }

    /// Copies a slice to the end of the block: byte for byte or word for word where the slice
    /// is stored as the block is, and widened or encoded as UTF-16 otherwise.
    pub(crate) fn append(&mut self, slice: JsStringSlice<'_>)
        requires
            old(self).filling(),
            old(self).is_bytes() ==> is_ascii_units(slice@),
        ensures
            final(self).units() == old(self).units() + slice@,
            final(self).is_bytes() <==> old(self).is_bytes(),
            final(self).filling(),
    {
        match self {
            RawJsString::Ascii(data) => append_ascii(data, slice),
            RawJsString::U16(data) => append_units(data, slice),
        }
    }
}

/// Either the index of an entry of the table of well-known strings, or a shared heap block.
#[derive(Debug)]
pub(crate) enum Tagged {
    Tag(usize),
    Ptr(Rc<RawJsString>),
}

/// A UTF-16 encoded, reference counted, immutable string.
///
/// A string whose content is well known is held as an index into the table of well-known
/// strings, and owns no memory. Any other string shares one heap block with its clones; the
/// block is freed when the last of them is dropped. The count of the clones is not atomic, so
/// a string can be neither sent to nor shared with another thread.
#[derive(Debug)]
pub struct JsString {
    ptr: Tagged,
}

impl View for JsString {
    type V = Seq<u16>;

    /// The code units of the string.
    closed spec fn view(&self) -> Seq<u16> {
        match self.ptr {
            Tagged::Tag(index) => static_units(index as int),
            Tagged::Ptr(raw) => raw.units(),
        }
    }
}

impl JsString {
    /// The validity of a string: an index names the first table entry of its content; a heap
    /// block is stored as fits its content, and its content is not in the table.
    #[verifier::type_invariant]
    pub closed spec fn wf(&self) -> bool {
        match self.ptr {
            Tagged::Tag(index) => index < STATIC_COUNT && is_first_entry(index as int),
            Tagged::Ptr(raw) => raw.wf() && !is_static_content(raw.units()),
        }
    }

    /// The string is held as an index into the table of well-known strings.
    pub closed spec fn interned(&self) -> bool {
        self.ptr is Tag
    }

    /// Makes the string of the table entry at `index`.
    pub(crate) fn from_static(index: usize) -> (r: Self)
        requires
            index < STATIC_COUNT,
            is_first_entry(index as int),
        ensures
            r@ == static_units(index as int),
            r.interned(),
    {
        JsString { ptr: Tagged::Tag(index) }
    }

    /// Gets the well-known string of the given ASCII bytes, if they are in the table.
    pub(crate) fn lookup_ascii(bytes: &[u8]) -> (r: Option<Self>)
        ensures
            match r {
                Some(string) => string@ == widen(bytes@) && string.interned(),
                None => !is_static_content(widen(bytes@)),
            },
    {
        match StaticJsStrings::lookup(bytes) {
            Some(index) => {
                proof {
                    lemma_static_first(index as int);
                }
                Some(Self::from_static(index))
            },
            None => {
                proof {
                    lemma_not_static(bytes@);
                }
                None
            },
        }
    }

    /// Makes a string of a finished heap block, unless the content of the block is well
    /// known: then the block is dropped, and the string is the one of the table.
    pub(crate) fn from_raw(raw: RawJsString) -> (r: Self)
        requires
            raw.wf(),
        ensures
            r@ == raw.units(),
            r.interned() == is_static_content(r@),
    {
        if let RawJsString::Ascii(bytes) = &raw {
            if let Some(string) = Self::lookup_ascii(bytes.as_slice()) {
                proof {
                    use_type_invariant(&string);
                    lemma_static_is_canonical(string, string);
                }
                return string;
            }
        } else {
            proof {
                lemma_non_ascii_not_static(raw.units());
            }
        }
        JsString { ptr: Tagged::Ptr(Rc::new(raw)) }
    }

    /// Makes a string of a finished heap block whose content is known not to be in the table.
    pub(crate) fn from_raw_skip_interning(raw: RawJsString) -> (r: Self)
        requires
            raw.wf(),
            !is_static_content(raw.units()),
        ensures
            r@ == raw.units(),
            !r.interned(),
    {
        JsString { ptr: Tagged::Ptr(Rc::new(raw)) }
    }

    /// Obtains the code units of the string, in the storage that holds them.
    pub fn as_str(&self) -> (r: JsStr<'_>)
        ensures
            r@ == self@,
    {
        proof {
            use_type_invariant(self);
        }
        match &self.ptr {
            Tagged::Ptr(raw) => match &**raw {
                RawJsString::Ascii(bytes) => JsStr::ascii_unchecked(bytes.as_slice()),
                RawJsString::U16(units) => JsStr::u16_unchecked(units.as_slice()),
            },
            Tagged::Tag(index) => {
                proof {
                    lemma_static_entry(*index as int);
                }
                JsStr::ascii_unchecked(StaticJsStrings::text(*index).as_bytes())
            },
        }
    }

    /// Gets the length of the string, in code units.
    pub fn len(&self) -> (r: usize)
        ensures
            r == self@.len(),
    {
        self.as_str().len()
    }

    /// Returns true if the string is empty.
    pub fn is_empty(&self) -> (r: bool)
        ensures
            r == (self@.len() == 0),
    {
        self.len() == 0
    }

    /// Checks if the string is held by the table of well-known strings, which it is exactly
    /// when its content is in the table.
    pub fn is_static(&self) -> (r: bool)
        ensures
            r == self.interned(),
            r == is_static_content(self@),
    {
        proof {
            use_type_invariant(self);
        }
        match &self.ptr {
            Tagged::Tag(index) => {
                assert(static_units(*index as int) == self@);
                true
            },
            Tagged::Ptr(_) => false,
        }
    }
}

impl JsString {
    /// Gets the number of strings that share the heap block of this string: there is none for
    /// a well-known string, which has no block, and at least this string otherwise.
    pub fn refcount(&self) -> (r: Option<usize>)
        ensures
            r is None <==> self.interned(),
            r matches Some(count) ==> count >= 1,
    {
        match &self.ptr {
            Tagged::Ptr(raw) => Some(strong_count(raw)),
            Tagged::Tag(_) => None,
        }
    }

    /// Tells whether two strings are one instance: the same entry of the table of well-known
    /// strings, or the same heap block. Two instances hold the same content, and well-known
    /// strings of the same content are one instance.
    pub fn ptr_eq(&self, other: &Self) -> (r: bool)
        ensures
            r ==> self@ == other@,
            self.interned() != other.interned() ==> !r,
            self.interned() && other.interned() ==> (r <==> self@ == other@),
    {
        proof {
            use_type_invariant(self);
            use_type_invariant(other);
            lemma_static_is_canonical(*self, *other);
        }
        match (&self.ptr, &other.ptr) {
            (Tagged::Tag(x), Tagged::Tag(y)) => *x == *y,
            (Tagged::Ptr(x), Tagged::Ptr(y)) => same_block(x, y),
            _ => false,
        }
    }

    /// Creates an iterator over the code units of the string.
    pub fn iter(&self) -> (r: Iter<'_>)
        ensures
            r.remaining() == self@,
    {
        Iter::new(JsStringSlice::from(self.as_str()))
    }

    /// Checks if the string contains a byte, that is, the code unit of the byte's value.
    pub fn contains(&self, element: u8) -> (r: bool)
        ensures
            r == self@.contains(element as u16),
    {
        match self.as_str().variant() {
            JsStrVariant::Ascii(v) => {
                let mut i: usize = 0;
                while i < v.len()
                    invariant
                        i <= v.len(),
                        self@ == widen(v@),
                        forall|j: int| 0 <= j < i ==> self@[j] != element as u16,
                    decreases v.len() - i,
                {
                    if v[i] == element {
                        assert(self@[i as int] == element as u16);
                        return true;
                    }
                    i += 1;
                }
                false
            },
            JsStrVariant::U16(v) => {
                let mut i: usize = 0;
                while i < v.len()
                    invariant
                        i <= v.len(),
                        self@ == v@,
                        forall|j: int| 0 <= j < i ==> self@[j] != element as u16,
                    decreases v.len() - i,
                {
                    if v[i] == element as u16 {
                        assert(self@[i as int] == element as u16);
                        return true;
                    }
                    i += 1;
                }
                false
            },
        }
    }

    /// Trims whitespace from the start and end of the string.
    pub fn trim(&self) -> (r: JsStringSlice<'_>)
        ensures
            r@ == trim_units(self@),
    {
        self.as_str().trim()
    }

    /// Trims whitespace from the start of the string.
    pub fn trim_start(&self) -> (r: JsStringSlice<'_>)
        ensures
            r@ == trim_start_units(self@),
    {
        self.as_str().trim_start()
    }

    /// Trims whitespace from the end of the string.
    pub fn trim_end(&self) -> (r: JsStringSlice<'_>)
        ensures
            r@ == trim_end_units(self@),
    {
        self.as_str().trim_end()
    }

    /// Converts the string into a vector of its code units.
    pub fn to_vec(&self) -> (r: Vec<u16>)
        ensures
            r@ == self@,
    {
        let mut out: Vec<u16> = Vec::new();
        match self.as_str().variant() {
            JsStrVariant::Ascii(v) => push_widened(&mut out, v),
            JsStrVariant::U16(v) => push_units(&mut out, v),
        }
        assert(out@ =~= self@);
        out
    }
}

impl Clone for JsString {
    /// Another owner of the same string. A well-known string is copied; any other string
    /// shares its heap block with the clone, and the count of the block goes up by one.
    fn clone(&self) -> (r: Self)
        ensures
            r@ == self@,
            r.interned() == self.interned(),
    {
        proof {
            use_type_invariant(self);
        }
        match &self.ptr {
            Tagged::Tag(index) => JsString { ptr: Tagged::Tag(*index) },
            Tagged::Ptr(raw) => JsString { ptr: Tagged::Ptr(share(raw)) },
        }
    }
}

/// `Rc::clone` of the standard library: one more pointer to the same block, which holds what
/// it held.
#[verifier::external_body]
fn share(raw: &Rc<RawJsString>) -> (r: Rc<RawJsString>)
    ensures
        r == *raw,
{
    Rc::clone(raw)
}

/// `Rc::strong_count` of the standard library: the number of pointers to the block. The
/// pointer that is asked is one of them.
#[verifier::external_body]
fn strong_count(raw: &Rc<RawJsString>) -> (r: usize)
    ensures
        r >= 1,
{
    Rc::strong_count(raw)
}

/// `Rc::ptr_eq` of the standard library: tells whether the two pointers point to one block.
/// Where they do, they see the same content.
#[verifier::external_body]
fn same_block(a: &Rc<RawJsString>, b: &Rc<RawJsString>) -> (r: bool)
    ensures
        r ==> *a == *b,
{
    Rc::ptr_eq(a, b)
}

/// The entry that a lookup finds is the first one of its content.
proof fn lemma_static_first(index: int)
    requires
        0 <= index < STATIC_COUNT,
        forall|earlier: int|
            0 <= earlier < index ==> #[trigger] static_bytes(earlier) != static_bytes(index),
    ensures
        is_first_entry(index),
{
    assert forall|earlier: int| 0 <= earlier < index implies #[trigger] static_units(earlier)
        != static_units(index) by {
        assert(static_bytes(earlier) != static_bytes(index));
        lemma_widen_injective(static_bytes(earlier), static_bytes(index));
    }
}

/// Bytes that no entry of the table holds stand for content that is not in the table.
proof fn lemma_not_static(bytes: Seq<u8>)
    requires
        forall|index: int| 0 <= index < STATIC_COUNT ==> #[trigger] static_bytes(index) != bytes,
    ensures
        !is_static_content(widen(bytes)),
{
    assert forall|index: int| 0 <= index < STATIC_COUNT implies #[trigger] static_units(index)
        != widen(bytes) by {
        assert(static_bytes(index) != bytes);
        lemma_widen_injective(static_bytes(index), bytes);
    }
}

/// Content that is not all ASCII is not in the table.
proof fn lemma_non_ascii_not_static(units: Seq<u16>)
    requires
        !is_ascii_units(units),
    ensures
        !is_static_content(units),
{
    assert forall|index: int| 0 <= index < STATIC_COUNT implies #[trigger] static_units(index)
        != units by {
        lemma_static_entry(index);
    }
}

/// The content of a string that is held by the table of well-known strings is in the table.
pub proof fn lemma_static_units(string: JsString)
    requires
        string.interned(),
        string.wf(),
    ensures
        is_static_content(string@),
{
    lemma_static_is_canonical(string, string);
}

/// The empty string is well known.
pub proof fn lemma_empty_is_static()
    ensures
        is_static_content(Seq::<u16>::empty()),
{
    reveal_strlit("");
    assert(static_units(0) =~= Seq::<u16>::empty());
}

/// A string is held by the table of well-known strings exactly when its content is in the
/// table; and there is one instance only of each well-known string.
pub proof fn lemma_static_is_canonical(a: JsString, b: JsString)
    requires
        a.wf(),
        b.wf(),
    ensures
        a.interned() <==> is_static_content(a@),
        a.interned() && b.interned() && a@ == b@ ==> a == b,
{
    if a.interned() {
        assert(static_units(a.ptr->Tag_0 as int) == a@);
    }
    if a.interned() && b.interned() && a@ == b@ {
        let i = a.ptr->Tag_0;
        let j = b.ptr->Tag_0;
        if i < j {
            assert(static_units(i as int) != static_units(j as int));
        } else if j < i {
            assert(static_units(j as int) != static_units(i as int));
        }
    }
}

} // verus!
