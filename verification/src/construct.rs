//! Making owned strings: from narrow text, from code units, from a borrowed view, and by
//! concatenation. Every new string is folded back into the table of well-known strings where
//! its content is one of them.

use crate::builder::{concat_units, lemma_concat_ascii, lemma_concat_units_prefix,
    max_block_len};
use crate::common::{is_static_content, lemma_ascii_text, StaticJsStrings};
use crate::js_slice::{JsStringSlice, JsStringSliceVariant};
use crate::js_str::JsStr;
use crate::js_string::{lemma_empty_is_static, lemma_static_units, JsString, RawJsString};
use crate::unicode::{decode_utf16, encode_utf16, is_ascii_units, lemma_decode_of_encoding,
    lemma_encode_utf16_ascii, lemma_encode_utf16_concat, widen};
use vstd::prelude::*;
use vstd::std_specs::convert::FromSpecImpl;
use vstd::utf8::{encode_utf8, is_ascii_chars};

verus! {

impl JsString {
    /// Creates a new [`JsString`] from the concatenation of `x` and `y`.
    ///
    /// The result is stored as ASCII exactly when both parts are ASCII.
    pub fn concat(x: JsStringSlice<'_>, y: JsStringSlice<'_>) -> (r: Self)
        requires
            x@.len() + y@.len() <= max_block_len(is_ascii_units(x@ + y@)),
        ensures
            r@ == x@ + y@,
            r@.len() == x@.len() + y@.len(),
            is_ascii_units(r@) <==> is_ascii_units(x@) && is_ascii_units(y@),
            r.interned() == is_static_content(r@),
    {
        let parts = [x, y];
        proof {
            lemma_concat_ascii(x@, y@);
            let slices = parts@;
            assert(slices.drop_last().drop_last() =~= Seq::<JsStringSlice<'_>>::empty());
            assert(concat_units(slices.drop_last().drop_last()) =~= Seq::<u16>::empty());
            assert(slices.drop_last().last() == x);
            assert(slices.last() == y);
            assert(concat_units(slices.drop_last()) =~= x@);
            assert(concat_units(slices) =~= x@ + y@);
        }
        Self::concat_array(parts.as_slice())
    }

    /// Creates a new [`JsString`] from the concatenation of every element of `strings`.
    ///
    /// A first pass over the slices measures the result and decides its storage: one byte per
    /// code unit where every slice is ASCII, 16-bit words otherwise. A second pass fills one
    /// block that is reserved at its final size. The result owns no block where its content
    /// is well known.
    pub fn concat_array(strings: &[JsStringSlice<'_>]) -> (r: Self)
        requires
            concat_units(strings@).len() <= max_block_len(is_ascii_units(concat_units(strings@))),
        ensures
            r@ == concat_units(strings@),
            r.interned() == is_static_content(r@),
    {
        Self::try_concat_array(strings).unwrap()
    }

    /// The first pass of a concatenation: adds up the lengths of the slices, and tells whether
    /// every slice is ASCII. There is no result where one heap block cannot hold the sum.
    fn measure(strings: &[JsStringSlice<'_>]) -> (r: Option<(usize, bool)>)
        ensures
            match r {
                Some((count, ascii)) => count == concat_units(strings@).len() && ascii
                    == is_ascii_units(concat_units(strings@)) && count <= max_block_len(ascii),
                None => concat_units(strings@).len() > max_block_len(
                    is_ascii_units(concat_units(strings@)),
                ),
            },
    {
        let mut ascii = true;
        let mut full_count: usize = 0;
        let mut i: usize = 0;
        assert(concat_units(strings@.take(0)) =~= Seq::<u16>::empty());
        while i < strings.len()
            invariant
                i <= strings.len(),
                full_count == concat_units(strings@.take(i as int)).len(),
                ascii == is_ascii_units(concat_units(strings@.take(i as int))),
            decreases strings.len() - i,
        {
            let string = strings[i];
            proof {
                let longer = strings@.take(i + 1);
                assert(longer.drop_last() =~= strings@.take(i as int));
                assert(longer.last() == string);
                lemma_concat_units_prefix(strings@, i + 1);
                lemma_concat_ascii(concat_units(strings@.take(i as int)), string@);
            }
            let sum = match full_count.checked_add(string.len()) {
                Some(sum) => sum,
                None => {
                    return None;
                },
            };
            if !string.is_ascii() {
                ascii = false;
            }
            full_count = sum;
            i += 1;
        }
        assert(strings@.take(strings@.len() as int) =~= strings@);
        let limit: usize = if ascii {
            isize::MAX as usize
        } else {
            isize::MAX as usize / 2
        };
        if full_count <= limit {
            Some((full_count, ascii))
        } else {
            None
        }
    }

    /// The second pass of a concatenation: copies the slices into one block that is reserved
    /// at its final size.
    fn fill(strings: &[JsStringSlice<'_>], full_count: usize, ascii: bool) -> (r: Self)
        requires
            full_count == concat_units(strings@).len(),
            ascii == is_ascii_units(concat_units(strings@)),
            full_count <= max_block_len(ascii),
        ensures
            r@ == concat_units(strings@),
            r.interned() == is_static_content(r@),
    {
        let mut raw = Self::allocate_inner(full_count, ascii);
        let mut i: usize = 0;
        assert(concat_units(strings@.take(0)) =~= Seq::<u16>::empty());
        while i < strings.len()
            invariant
                i <= strings.len(),
                ascii == is_ascii_units(concat_units(strings@)),
                raw.is_bytes() <==> ascii,
                raw.filling(),
                raw.units() == concat_units(strings@.take(i as int)),
            decreases strings.len() - i,
        {
            let string = strings[i];
            proof {
                let longer = strings@.take(i + 1);
                assert(longer.drop_last() =~= strings@.take(i as int));
                assert(longer.last() == string);
                lemma_concat_units_prefix(strings@, i + 1);
                lemma_concat_ascii(concat_units(strings@.take(i as int)), string@);
            }
            raw.append(string);
            i += 1;
        }
        assert(strings@.take(strings@.len() as int) =~= strings@);
        Self::from_raw(raw)
    }

    /// Allocates a heap block with room for `str_len` code units, in byte storage or in 16-bit
    /// storage.
    pub(crate) fn allocate_inner(str_len: usize, ascii: bool) -> (r: RawJsString)
        requires
            str_len <= max_block_len(ascii),
        ensures
            r.units() == Seq::<u16>::empty(),
            r.is_bytes() <==> ascii,
            r.filling(),
    {
        RawJsString::with_capacity(str_len, ascii)
    }

    /// Allocates a heap block with room for `str_len` code units, unless a block of that
    /// length is larger than any allocation. The size is checked before anything is
    /// allocated.
    pub(crate) fn try_allocate_inner(str_len: usize, ascii: bool) -> (r: Option<RawJsString>)
        ensures
            r is Some <==> str_len <= max_block_len(ascii),
            r matches Some(raw) ==> raw.units() == Seq::<u16>::empty() && (raw.is_bytes()
                <==> ascii) && raw.filling(),
    {
        let limit: usize = if ascii {
            isize::MAX as usize
        } else {
            isize::MAX as usize / 2
        };
        if str_len > limit {
            return None;
        }
        Some(Self::allocate_inner(str_len, ascii))
    }

    /// Tells whether one heap block can hold the concatenation of the slices: whether their
    /// lengths add up to no more than the largest block of the storage that fits them.
    pub fn fits_block(strings: &[JsStringSlice<'_>]) -> (r: bool)
        ensures
            r == (concat_units(strings@).len() <= max_block_len(
                is_ascii_units(concat_units(strings@)),
            )),
    {
        Self::measure(strings).is_some()
    }

    /// Creates a new [`JsString`] from the concatenation of every element of `strings`, unless
    /// the result is too long for one heap block.
    pub fn try_concat_array(strings: &[JsStringSlice<'_>]) -> (r: Option<Self>)
        ensures
            match r {
                Some(string) => string@ == concat_units(strings@) && string.interned()
                    == is_static_content(string@) && concat_units(strings@).len()
                    <= max_block_len(is_ascii_units(concat_units(strings@))),
                None => concat_units(strings@).len() > max_block_len(
                    is_ascii_units(concat_units(strings@)),
                ),
            },
    {
        match Self::measure(strings) {
            Some((full_count, ascii)) => Some(Self::fill(strings, full_count, ascii)),
            None => None,
        }
    }

    /// Copies a slice into a heap block of the storage that fits it. The block is reserved at
    /// its final size; a slice too long for that is copied into a block that grows.
    fn copy_slice(string: JsStringSlice<'_>) -> (r: RawJsString)
        ensures
            r.wf(),
            r.units() == string@,
    {
        let ascii = string.is_ascii();
        let mut raw = match Self::try_allocate_inner(string.len(), ascii) {
            Some(raw) => raw,
            None => RawJsString::growing(ascii),
        };
        raw.append(string);
        assert(raw.units() =~= string@);
        raw
    }

    /// Creates a new [`JsString`] from a slice whose content is known not to be in the table
    /// of well-known strings.
    pub(crate) fn from_slice_skip_interning(string: JsStringSlice<'_>) -> (r: Self)
        requires
            !is_static_content(string@),
        ensures
            r@ == string@,
            !r.interned(),
    {
        Self::from_raw_skip_interning(Self::copy_slice(string))
    }

    /// Creates a new [`JsString`] from a slice. ASCII bytes are looked up in the table of
    /// well-known strings before anything is allocated; any other slice is copied first.
    pub(crate) fn from_slice(string: JsStringSlice<'_>) -> (r: Self)
        ensures
            r@ == string@,
            r.interned() == is_static_content(r@),
    {
        match string.variant() {
            JsStringSliceVariant::U8Ascii(bytes) => match Self::lookup_ascii(bytes) {
                Some(known) => {
                    proof {
                        use_type_invariant(&known);
                        lemma_static_units(known);
                    }
                    known
                },
                None => Self::from_slice_skip_interning(string),
            },
            _ => Self::from_raw(Self::copy_slice(string)),
        }
    }
}

/// The concatenation of two ASCII texts holds the bytes of the first text followed by the
/// bytes of the second, each as the code unit of its value; it is ASCII, and it decodes to
/// the first text followed by the second.
pub proof fn lemma_concat_of_ascii_text(a: Seq<char>, b: Seq<char>)
    requires
        is_ascii_chars(a),
        is_ascii_chars(b),
    ensures
        encode_utf16(a) + encode_utf16(b) == widen(encode_utf8(a) + encode_utf8(b)),
        (encode_utf16(a) + encode_utf16(b)).len() == a.len() + b.len(),
        is_ascii_units(encode_utf16(a) + encode_utf16(b)),
        decode_utf16(encode_utf16(a) + encode_utf16(b)) == Some(a + b),
{
    lemma_ascii_text(a);
    lemma_ascii_text(b);
    lemma_encode_utf16_ascii(a);
    lemma_encode_utf16_ascii(b);
    lemma_concat_ascii(encode_utf16(a), encode_utf16(b));
    lemma_encode_utf16_concat(a, b);
    lemma_decode_of_encoding(a + b);
    assert(widen(encode_utf8(a) + encode_utf8(b)) =~= widen(encode_utf8(a)) + widen(
        encode_utf8(b),
    ));
}

/// A concatenation holds the code units of its first part followed by those of its second;
/// it is ASCII exactly when both parts are.
pub proof fn lemma_concat_units(x: Seq<u16>, y: Seq<u16>)
    ensures
        (x + y).len() == x.len() + y.len(),
        forall|i: int| 0 <= i < x.len() ==> (x + y)[i] == x[i],
        forall|i: int| 0 <= i < y.len() ==> (x + y)[x.len() + i] == y[i],
        is_ascii_units(x + y) <==> is_ascii_units(x) && is_ascii_units(y),
{
    lemma_concat_ascii(x, y);
}

/// The code units of a sequence of strings, one string after the other.
pub open spec fn concat_strings(strings: Seq<JsString>) -> Seq<u16>
    decreases strings.len(),
{
    if strings.len() == 0 {
        Seq::empty()
    } else {
        concat_strings(strings.drop_last()) + strings.last()@
    }
}

/// Slices that view the strings of a sequence, one by one, hold the code units of the strings.
proof fn lemma_concat_of_views(slices: Seq<JsStringSlice<'_>>, strings: Seq<JsString>)
    requires
        slices.len() == strings.len(),
        forall|i: int| 0 <= i < slices.len() ==> (#[trigger] slices[i])@ == strings[i]@,
    ensures
        concat_units(slices) == concat_strings(strings),
    decreases slices.len(),
{
    if slices.len() > 0 {
        assert(slices.last()@ == strings.last()@);
        assert forall|i: int| 0 <= i < slices.drop_last().len() implies (
        #[trigger] slices.drop_last()[i])@ == strings.drop_last()[i]@ by {
            assert(slices.drop_last()[i] == slices[i]);
        }
        lemma_concat_of_views(slices.drop_last(), strings.drop_last());
    }
}

impl JsString {
    /// Creates a new [`JsString`] from the concatenation of every string of `value`.
    pub fn from_strings(value: &[JsString]) -> (r: Self)
        requires
            concat_strings(value@).len() <= max_block_len(is_ascii_units(concat_strings(value@))),
        ensures
            r@ == concat_strings(value@),
            r.interned() == is_static_content(r@),
    {
        let mut slices: Vec<JsStringSlice<'_>> = Vec::new();
        let mut i: usize = 0;
        while i < value.len()
            invariant
                i <= value.len(),
                slices@.len() == i,
                forall|j: int| 0 <= j < i ==> (#[trigger] slices@[j])@ == value@[j]@,
            decreases value.len() - i,
        {
            slices.push(JsStringSlice::from(&value[i]));
            i += 1;
        }
        proof {
            lemma_concat_of_views(slices@, value@);
        }
        Self::concat_array(slices.as_slice())
    }
}

impl Default for JsString {
    /// The empty string, which is well known.
    fn default() -> (r: Self)
        ensures
            r@ == Seq::<u16>::empty(),
            r.interned(),
            is_static_content(r@),
    {
        proof {
            lemma_empty_is_static();
        }
        StaticJsStrings::empty_string()
    }
}

impl<'a> From<&'a [u16]> for JsString {
    /// The string of the given code units.
    fn from(s: &'a [u16]) -> (r: Self)
        ensures
            r@ == s@,
            r.interned() == is_static_content(r@),
    {
        JsString::from_slice(JsStringSlice::from(s))
    }
}

impl<'a> FromSpecImpl<&'a [u16]> for JsString {
    open spec fn obeys_from_spec() -> bool {
        false
    }

    open spec fn from_spec(s: &'a [u16]) -> Self {
        arbitrary()
    }
}

impl<'a> From<&'a str> for JsString {
    /// The string of the UTF-16 encoding of the given text. The table of well-known strings
    /// is asked before anything is allocated.
    fn from(s: &'a str) -> (r: Self)
        ensures
            r@ == encode_utf16(s@),
            r.interned() == is_static_content(r@),
    {
        match StaticJsStrings::get_string(s) {
            Some(string) => {
                proof {
                    use_type_invariant(&string);
                    lemma_static_units(string);
                }
                string
            },
            None => JsString::from_slice_skip_interning(JsStringSlice::from(s)),
        }
    }
}

impl<'a> FromSpecImpl<&'a str> for JsString {
    open spec fn obeys_from_spec() -> bool {
        false
    }

    open spec fn from_spec(s: &'a str) -> Self {
        arbitrary()
    }
}

impl From<String> for JsString {
    /// The string of the UTF-16 encoding of the given text.
    fn from(s: String) -> (r: Self)
        ensures
            r@ == encode_utf16(s@),
            r.interned() == is_static_content(r@),
    {
        Self::from(s.as_str())
    }
}

impl FromSpecImpl<String> for JsString {
    open spec fn obeys_from_spec() -> bool {
        false
    }

    open spec fn from_spec(s: String) -> Self {
        arbitrary()
    }
}

impl<'a> From<JsStr<'a>> for JsString {
    /// An owned copy of the view.
    fn from(value: JsStr<'a>) -> (r: Self)
        ensures
            r@ == value@,
            r.interned() == is_static_content(r@),
    {
        JsString::from_slice(JsStringSlice::from(value))
    }
}

impl<'a> FromSpecImpl<JsStr<'a>> for JsString {
    open spec fn obeys_from_spec() -> bool {
        false
    }

    open spec fn from_spec(value: JsStr<'a>) -> Self {
        arbitrary()
    }
}

impl<'a> From<JsStringSlice<'a>> for JsString {
    /// An owned copy of the slice.
    fn from(value: JsStringSlice<'a>) -> (r: Self)
        ensures
            r@ == value@,
            r.interned() == is_static_content(r@),
    {
        JsString::from_slice(value)
    }
}

impl<'a> FromSpecImpl<JsStringSlice<'a>> for JsString {
    open spec fn obeys_from_spec() -> bool {
        false
    }

    open spec fn from_spec(value: JsStringSlice<'a>) -> Self {
        arbitrary()
    }
}

impl<'a> From<&'a JsString> for JsStr<'a> {
    /// The view of the string.
    fn from(value: &'a JsString) -> (r: Self)
        ensures
            r@ == value@,
    {
        value.as_str()
    }
}

impl<'a> FromSpecImpl<&'a JsString> for JsStr<'a> {
    open spec fn obeys_from_spec() -> bool {
        false
    }

    open spec fn from_spec(value: &'a JsString) -> Self {
        arbitrary()
    }
}

impl<'a> From<&'a JsString> for JsStringSlice<'a> {
    /// The slice of the whole string.
    fn from(value: &'a JsString) -> (r: Self)
        ensures
            r@ == value@,
    {
        Self::from(value.as_str())
    }
}

impl<'a> FromSpecImpl<&'a JsString> for JsStringSlice<'a> {
    open spec fn obeys_from_spec() -> bool {
        false
    }

    open spec fn from_spec(value: &'a JsString) -> Self {
        arbitrary()
    }
}

impl<'a, const N: usize> From<&'a [u16; N]> for JsString {
    /// The string of the given code units.
    fn from(s: &'a [u16; N]) -> (r: Self)
        ensures
            r@ == s@,
            r.interned() == is_static_content(r@),
    {
        Self::from(s.as_slice())
    }
}

impl<'a, const N: usize> FromSpecImpl<&'a [u16; N]> for JsString {
    open spec fn obeys_from_spec() -> bool {
        false
    }

    open spec fn from_spec(s: &'a [u16; N]) -> Self {
        arbitrary()
    }
}

impl std::str::FromStr for JsString {
    type Err = std::convert::Infallible;

    /// The string of the UTF-16 encoding of the given text. This does not fail.
    fn from_str(s: &str) -> (r: Result<Self, Self::Err>)
        ensures
            r matches Ok(string) && string@ == encode_utf16(s@) && string.interned()
                == is_static_content(string@),
    {
        Ok(Self::from(s))
    }
}

} // verus!
