//! Indexing a string: by the position of one code unit, by a range of positions, and in full.

use crate::js_slice::JsStringSlice;
use crate::js_str::{JsStr, JsStrVariant};
use crate::js_string::JsString;
use crate::unicode::{is_ascii_bytes, widen};
use std::ops::{Range, RangeFull};
use vstd::prelude::*;
use vstd::slice::slice_subrange;

verus! {

/// `RangeFull` of the standard library, the type of the expression `..`. It holds nothing.
#[verifier::external_type_specification]
#[verifier::external_body]
pub struct ExRangeFull(std::ops::RangeFull);

/// An index into the code units of a string.
pub trait JsSliceIndex<'a>: Sized {
    /// What the index selects.
    type Value;

    /// The index lies within a string of the given code units.
    spec fn in_bounds(self, units: Seq<u16>) -> bool;

    /// `value` is what the index selects of the given code units.
    spec fn selects(self, units: Seq<u16>, value: Self::Value) -> bool;

    /// Gets what the index selects of the string, or `None` where the index is out of bounds.
    fn get(value: JsStr<'a>, index: Self) -> (r: Option<Self::Value>)
        ensures
            r is Some <==> index.in_bounds(value@),
            r matches Some(selected) ==> index.selects(value@, selected),
    ;
}

impl<'a> JsSliceIndex<'a> for usize {
    type Value = u16;

    open spec fn in_bounds(self, units: Seq<u16>) -> bool {
        self < units.len()
    }

    open spec fn selects(self, units: Seq<u16>, value: u16) -> bool {
        value == units[self as int]
    }

    /// Gets the code unit at the position.
    fn get(value: JsStr<'a>, index: Self) -> (r: Option<u16>) {
        match value.variant() {
            JsStrVariant::Ascii(v) => if index < v.len() {
                Some(v[index] as u16)
            } else {
                None
            },
            JsStrVariant::U16(v) => if index < v.len() {
                Some(v[index])
            } else {
                None
            },
        }
    }
}

impl<'a> JsSliceIndex<'a> for Range<usize> {
    /// A range of a string that is not all ASCII may hold nothing but ASCII. What the range
    /// selects is therefore a slice, which is classified by what it holds.
    type Value = JsStringSlice<'a>;

    open spec fn in_bounds(self, units: Seq<u16>) -> bool {
        self.start <= self.end <= units.len()
    }

    open spec fn selects(self, units: Seq<u16>, value: JsStringSlice<'a>) -> bool {
        value@ == units.subrange(self.start as int, self.end as int)
    }

    /// Gets the code units from the start of the range up to its end.
    fn get(value: JsStr<'a>, index: Self) -> (r: Option<JsStringSlice<'a>>) {
        if index.start > index.end || index.end > value.len() {
            return None;
        }
        match value.variant() {
            JsStrVariant::Ascii(v) => {
                let part = slice_subrange(v, index.start, index.end);
                assert(is_ascii_bytes(part@));
                assert(widen(part@) =~= widen(v@).subrange(index.start as int, index.end as int));
                Some(JsStringSlice::u8_ascii_unchecked(part))
            },
            JsStrVariant::U16(v) => {
                let part = slice_subrange(v, index.start, index.end);
                Some(JsStringSlice::from(part))
            },
        }
    }
}

impl<'a> JsSliceIndex<'a> for RangeFull {
    type Value = JsStr<'a>;

    open spec fn in_bounds(self, units: Seq<u16>) -> bool {
        true
    }

    open spec fn selects(self, units: Seq<u16>, value: JsStr<'a>) -> bool {
        value@ == units
    }

    /// Gets the whole string.
    fn get(value: JsStr<'a>, _index: Self) -> (r: Option<JsStr<'a>>) {
        Some(value)
    }
}

impl<'a> JsStr<'a> {
    /// Gets what the index selects of the string, or `None` where the index is out of bounds.
    pub fn get<I>(&'a self, index: I) -> (r: Option<I::Value>) where I: JsSliceIndex<'a>
        ensures
            r is Some <==> index.in_bounds(self@),
            r matches Some(selected) ==> index.selects(self@, selected),
    {
        I::get(*self, index)
    }
}

impl JsString {
    /// Gets what the index selects of the string, or `None` where the index is out of bounds.
    pub fn get<'a, I>(&'a self, index: I) -> (r: Option<I::Value>) where I: JsSliceIndex<'a>
        ensures
            r is Some <==> index.in_bounds(self@),
            r matches Some(selected) ==> index.selects(self@, selected),
    {
        I::get(self.as_str(), index)
    }

    /// Gets what the index selects of the string. The index lies within the string.
    pub fn get_expect<'a, I>(&'a self, index: I) -> (r: I::Value) where I: JsSliceIndex<'a>
        requires
            index.in_bounds(self@),
        ensures
            index.selects(self@, r),
    {
        self.get(index).unwrap()
    }
}

} // verus!
