//! Iteration over the code units of a string.

use crate::js_slice::{JsStringSlice, JsStringSliceVariant};
use crate::unicode::{encode_utf16, push_str_units, widen};
use vstd::prelude::*;
use vstd::slice::slice_to_vec;

verus! {

/// The source of an iteration, with every code unit at hand.
#[derive(Debug)]
enum Source<'a> {
    /// ASCII bytes, each of which stands for the code unit of its value.
    Ascii(&'a [u8]),
    /// The UTF-16 encoding of narrow text.
    U8(Vec<u16>),
    /// Code units.
    U16(&'a [u16]),
}

impl<'a> Source<'a> {
    spec fn units(&self) -> Seq<u16> {
        match self {
            Source::Ascii(bytes) => widen(bytes@),
            Source::U8(units) => units@,
            Source::U16(units) => units@,
        }
    }
}

/// An iterator over the code units of a string. It is finite, and it yields every code unit of
/// its source once, in order; each call of `iter` makes a new one that starts at the front.
#[derive(Debug)]
pub struct Iter<'a> {
    source: Source<'a>,
    position: usize,
}

impl<'a> Iter<'a> {
    #[verifier::type_invariant]
    spec fn well_formed(&self) -> bool {
        self.position <= self.source.units().len()
    }

    /// The code units that the iterator has not yielded yet.
    pub closed spec fn remaining(&self) -> Seq<u16> {
        self.source.units().skip(self.position as int)
    }

    /// Makes the iterator over the code units of a slice.
    pub(crate) fn new(s: JsStringSlice<'a>) -> (r: Self)
        ensures
            r.remaining() == s@,
    {
        let source = match s.variant() {
            JsStringSliceVariant::U8Ascii(s) => Source::Ascii(s),
            JsStringSliceVariant::U8NonAscii(s, len) => {
                let mut units: Vec<u16> = Vec::with_capacity(len);
                push_str_units(&mut units, s);
                assert(units@ =~= encode_utf16(s@));
                Source::U8(units)
            },
            JsStringSliceVariant::U16Ascii(s) => Source::U16(s),
            JsStringSliceVariant::U16NonAscii(s) => Source::U16(s),
        };
        assert(source.units().skip(0) =~= source.units());
        Iter { source, position: 0 }
    }

    /// Yields the next code unit, if there is one left.
    pub fn next(&mut self) -> (r: Option<u16>)
        ensures
            match r {
                Some(unit) => old(self).remaining().len() > 0 && unit == old(self).remaining()[0]
                    && final(self).remaining() == old(self).remaining().drop_first(),
                None => old(self).remaining().len() == 0 && final(self).remaining() == old(
                    self,
                ).remaining(),
            },
    {
        proof {
            use_type_invariant(&*self);
        }
        let position = self.position;
        let unit = match &self.source {
            Source::Ascii(bytes) => {
                if position >= bytes.len() {
                    return None;
                }
                bytes[position] as u16
            },
            Source::U8(units) => {
                if position >= units.len() {
                    return None;
                }
                units[position]
            },
            Source::U16(units) => {
                if position >= units.len() {
                    return None;
                }
                units[position]
            },
        };
        self.position = position + 1;
        assert(self.source.units().skip(position + 1) =~= old(self).remaining().drop_first());
        Some(unit)
    }

    /// Gets the number of code units that are left.
    pub fn len(&self) -> (r: usize)
        ensures
            r == self.remaining().len(),
    {
        proof {
            use_type_invariant(self);
        }
        let total = match &self.source {
            Source::Ascii(bytes) => bytes.len(),
            Source::U8(units) => units.len(),
            Source::U16(units) => units.len(),
        };
        total - self.position
    }
}

impl<'a> Clone for Iter<'a> {
    /// An iterator that has the same code units left.
    fn clone(&self) -> (r: Self)
        ensures
            r.remaining() == self.remaining(),
    {
        proof {
            use_type_invariant(self);
        }
        let source = match &self.source {
            Source::Ascii(bytes) => Source::Ascii(*bytes),
            Source::U8(units) => Source::U8(slice_to_vec(units.as_slice())),
            Source::U16(units) => Source::U16(*units),
        };
        Iter { source, position: self.position }
    }
}

} // verus!
