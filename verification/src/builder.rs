//! Filling the storage of a new string from borrowed slices: same-encoding sources are copied,
//! ASCII bytes are widened into 16-bit storage, and narrow text is encoded as UTF-16.

use crate::js_slice::{JsStringSlice, JsStringSliceVariant};
use crate::unicode::{is_ascii_bytes, is_ascii_units, lemma_encode_utf16_ascii, lemma_widen_ascii,
    push_str_units, widen};
use vstd::prelude::*;

verus! {

/// The code units of a sequence of slices, one slice after the other.
pub open spec fn concat_units(slices: Seq<JsStringSlice<'_>>) -> Seq<u16>
    decreases slices.len(),
{
    if slices.len() == 0 {
        Seq::empty()
    } else {
        concat_units(slices.drop_last()) + slices.last()@
    }
}

/// The largest number of code units that one heap block can hold in the given storage: no
/// allocation is larger than `isize::MAX` bytes.
pub open spec fn max_block_len(ascii: bool) -> int {
    if ascii {
        isize::MAX as int
    } else {
        isize::MAX as int / 2
    }
}

/// A concatenation is all ASCII exactly when both of its parts are.
pub proof fn lemma_concat_ascii(a: Seq<u16>, b: Seq<u16>)
    ensures
        is_ascii_units(a + b) <==> is_ascii_units(a) && is_ascii_units(b),
{
    if is_ascii_units(a + b) {
        assert forall|i: int| 0 <= i < a.len() implies (#[trigger] a[i]) < 0x80 by {
            assert((a + b)[i] == a[i]);
        }
        assert forall|i: int| 0 <= i < b.len() implies (#[trigger] b[i]) < 0x80 by {
            assert((a + b)[i + a.len()] == b[i]);
        }
    }
}

/// The code units of the first slices of a sequence start the code units of all of them.
pub proof fn lemma_concat_units_prefix(slices: Seq<JsStringSlice<'_>>, count: int)
    requires
        0 <= count <= slices.len(),
    ensures
        concat_units(slices.take(count)).len() <= concat_units(slices).len(),
        is_ascii_units(concat_units(slices)) ==> is_ascii_units(concat_units(slices.take(count))),
    decreases slices.len() - count,
{
    if count == slices.len() {
        assert(slices.take(count) =~= slices);
    } else {
        lemma_concat_units_prefix(slices, count + 1);
        let longer = slices.take(count + 1);
        assert(longer.drop_last() =~= slices.take(count));
        assert(longer.last() == slices[count]);
        lemma_concat_ascii(concat_units(slices.take(count)), slices[count]@);
    }
}

/// Appends a copy of the bytes.
pub(crate) fn push_bytes(out: &mut Vec<u8>, source: &[u8])
    ensures
        final(out)@ == old(out)@ + source@,
{
    let mut i: usize = 0;
    while i < source.len()
        invariant
            i <= source.len(),
            out@ == old(out)@ + source@.take(i as int),
        decreases source.len() - i,
    {
        out.push(source[i]);
        assert(source@.take(i as int).push(source@[i as int]) =~= source@.take(i + 1));
        i += 1;
    }
    assert(source@.take(source@.len() as int) =~= source@);
}

/// Appends a copy of the code units.
pub(crate) fn push_units(out: &mut Vec<u16>, source: &[u16])
    ensures
        final(out)@ == old(out)@ + source@,
{
    let mut i: usize = 0;
    while i < source.len()
        invariant
            i <= source.len(),
            out@ == old(out)@ + source@.take(i as int),
        decreases source.len() - i,
    {
        out.push(source[i]);
        assert(source@.take(i as int).push(source@[i as int]) =~= source@.take(i + 1));
        i += 1;
    }
    assert(source@.take(source@.len() as int) =~= source@);
}

/// Appends each byte as the code unit of its value.
pub(crate) fn push_widened(out: &mut Vec<u16>, source: &[u8])
    ensures
        final(out)@ == old(out)@ + widen(source@),
{
    let mut i: usize = 0;
    while i < source.len()
        invariant
            i <= source.len(),
            out@ == old(out)@ + widen(source@.take(i as int)),
        decreases source.len() - i,
    {
        out.push(source[i] as u16);
        assert(widen(source@.take(i as int)).push(source@[i as int] as u16) =~= widen(
            source@.take(i + 1),
        ));
        i += 1;
    }
    assert(source@.take(source@.len() as int) =~= source@);
}

/// Appends each ASCII code unit as the byte of its value.
pub(crate) fn push_narrowed(out: &mut Vec<u8>, source: &[u16])
    requires
        is_ascii_units(source@),
    ensures
        widen(final(out)@) == widen(old(out)@) + source@,
        is_ascii_bytes(old(out)@) ==> is_ascii_bytes(final(out)@),
{
    let mut i: usize = 0;
    while i < source.len()
        invariant
            i <= source.len(),
            is_ascii_units(source@),
            widen(out@) == widen(old(out)@) + source@.take(i as int),
            is_ascii_bytes(old(out)@) ==> is_ascii_bytes(out@),
        decreases source.len() - i,
    {
        let unit = source[i];
        assert(unit < 0x80);
        let ghost before = out@;
        out.push(unit as u8);
        assert(widen(out@) =~= widen(before).push(unit));
        assert(source@.take(i as int).push(unit) =~= source@.take(i + 1));
        assert(is_ascii_bytes(before) ==> is_ascii_bytes(out@)) by {
            if is_ascii_bytes(before) {
                assert forall|j: int| 0 <= j < out@.len() implies (#[trigger] out@[j]) < 0x80 by {
                    if j < before.len() {
                        assert(out@[j] == before[j]);
                    }
                }
            }
        }
        i += 1;
    }
    assert(source@.take(source@.len() as int) =~= source@);
}

/// Appends an ASCII slice to byte storage.
pub(crate) fn append_ascii(out: &mut Vec<u8>, slice: JsStringSlice<'_>)
    requires
        is_ascii_units(slice@),
        is_ascii_bytes(old(out)@),
    ensures
        widen(final(out)@) == widen(old(out)@) + slice@,
        is_ascii_bytes(final(out)@),
{
    match slice.variant() {
        JsStringSliceVariant::U8Ascii(s) => {
            push_bytes(out, s);
            assert(widen(out@) =~= widen(old(out)@) + widen(s@));
            proof {
                lemma_widen_ascii(old(out)@);
                lemma_widen_ascii(s@);
                lemma_widen_ascii(out@);
                lemma_concat_ascii(widen(old(out)@), widen(s@));
            }
        },
        JsStringSliceVariant::U16Ascii(s) => {
            push_narrowed(out, s);
        },
        JsStringSliceVariant::U8NonAscii(s, _) => {
            proof {
                lemma_encode_utf16_ascii(s@);
            }
        },
        JsStringSliceVariant::U16NonAscii(_) => {},
    }
}

/// Appends a slice to 16-bit storage.
pub(crate) fn append_units(out: &mut Vec<u16>, slice: JsStringSlice<'_>)
    ensures
        final(out)@ == old(out)@ + slice@,
{
    match slice.variant() {
        JsStringSliceVariant::U8Ascii(s) => push_widened(out, s),
        JsStringSliceVariant::U8NonAscii(s, _) => push_str_units(out, s),
        JsStringSliceVariant::U16Ascii(s) => push_units(out, s),
        JsStringSliceVariant::U16NonAscii(s) => push_units(out, s),
    }
}

} // verus!
