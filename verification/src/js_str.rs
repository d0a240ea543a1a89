//! The borrowed view of an owned string: its code units in the storage that holds them.

use crate::compare::{eq_bytes, eq_units};
use crate::iter::Iter;
use crate::js_slice::JsStringSlice;
use crate::unicode::{is_ascii_bytes, is_ascii_units, lemma_widen_ascii, widen};
use crate::whitespace::{trim_end_units, trim_start_units, trim_units};
use vstd::prelude::*;
use vstd::std_specs::cmp::PartialEqSpecImpl;

verus! {

/// The two storages of a string: one byte per code unit where every code unit is below 128,
/// and one 16-bit word per code unit otherwise.
#[derive(Debug, Clone, Copy, PartialEq, Eq, Hash)]
pub enum JsStrVariant<'a> {
    Ascii(&'a [u8]),
    U16(&'a [u16]),
}

impl<'a> View for JsStrVariant<'a> {
    type V = Seq<u16>;

    /// The code units that the storage holds.
    open spec fn view(&self) -> Seq<u16> {
        match *self {
            JsStrVariant::Ascii(bytes) => widen(bytes@),
            JsStrVariant::U16(units) => units@,
        }
    }
}

impl<'a> JsStrVariant<'a> {
    /// The storage fits the content: byte storage holds ASCII only, and 16-bit storage holds
    /// at least one code unit that is not ASCII.
    pub open spec fn wf(self) -> bool {
        match self {
            JsStrVariant::Ascii(bytes) => is_ascii_bytes(bytes@),
            JsStrVariant::U16(units) => !is_ascii_units(units@),
        }
    }
}

/// A borrowed string of UTF-16 code units, classified by its storage.
#[derive(Debug, Clone, Copy, Hash)]
pub struct JsStr<'a> {
    inner: JsStrVariant<'a>,
}

impl<'a> View for JsStr<'a> {
    type V = Seq<u16>;

    /// The code units of the string.
    closed spec fn view(&self) -> Seq<u16> {
        self.inner@
    }
}

impl<'a> JsStr<'a> {
    #[verifier::type_invariant]
    spec fn well_formed(self) -> bool {
        self.inner.wf()
    }

    /// Creates a [`JsStr`] from a string of ASCII bytes. The caller has classified the bytes.
    pub fn ascii_unchecked(value: &'a [u8]) -> (r: Self)
        requires
            is_ascii_bytes(value@),
        ensures
            r@ == widen(value@),
    {
        Self { inner: JsStrVariant::Ascii(value) }
    }

    /// Creates a [`JsStr`] from code units of which at least one is not ASCII. The caller has
    /// classified the code units.
    pub fn u16_unchecked(value: &'a [u16]) -> (r: Self)
        requires
            !is_ascii_units(value@),
        ensures
            r@ == value@,
    {
        Self { inner: JsStrVariant::U16(value) }
    }

    /// Gets the length of the [`JsStr`], in code units.
    pub fn len(&self) -> (r: usize)
        ensures
            r == self@.len(),
    {
        match self.inner {
            JsStrVariant::Ascii(v) => v.len(),
            JsStrVariant::U16(v) => v.len(),
        }
    }

    /// Gets the storage of the string.
    pub fn variant(self) -> (r: JsStrVariant<'a>)
        ensures
            r.wf(),
            r@ == self@,
    {
        proof {
            use_type_invariant(self);
        }
        self.inner
    }

    /// Checks if the [`JsStr`] is all ASCII.
    pub fn is_ascii(&self) -> (r: bool)
        ensures
            r == is_ascii_units(self@),
    {
        proof {
            use_type_invariant(self);
        }
        match self.inner {
            JsStrVariant::Ascii(v) => {
                proof {
                    lemma_widen_ascii(v@);
                }
                true
            },
            JsStrVariant::U16(_) => false,
        }
    }

    /// Gets the bytes of the string if it is stored one byte per code unit, which it is
    /// exactly when it is all ASCII.
    pub fn as_ascii(&self) -> (r: Option<&[u8]>)
        ensures
            match r {
                Some(bytes) => is_ascii_bytes(bytes@) && self@ == widen(bytes@),
                None => !is_ascii_units(self@),
            },
    {
        proof {
            use_type_invariant(self);
        }
        if let JsStrVariant::Ascii(slice) = self.inner {
            return Some(slice);
        }
        None
    }

    /// Checks if the [`JsStr`] is empty.
    pub fn is_empty(&self) -> (r: bool)
        ensures
            r == (self@.len() == 0),
    {
        self.len() == 0
    }
}

impl<'a> JsStr<'a> {
    /// Creates an iterator over the code units of the string.
    pub fn iter(self) -> (r: Iter<'a>)
        ensures
            r.remaining() == self@,
    {
        Iter::new(JsStringSlice::from(self))
    }

    /// Trims both leading and trailing space.
    pub fn trim(self) -> (r: JsStringSlice<'a>)
        ensures
            r@ == trim_units(self@),
    {
        self.trim_start().trim_end()
    }

    /// Trims all leading space.
    pub fn trim_start(self) -> (r: JsStringSlice<'a>)
        ensures
            r@ == trim_start_units(self@),
    {
        JsStringSlice::from(self).trim_start()
    }

    /// Trims all trailing space.
    pub fn trim_end(self) -> (r: JsStringSlice<'a>)
        ensures
            r@ == trim_end_units(self@),
    {
        JsStringSlice::from(self).trim_end()
    }
}

impl<'a> PartialEq for JsStr<'a> {
    /// Two views are equal when they hold the same code units.
    fn eq(&self, other: &Self) -> (r: bool) {
        proof {
            use_type_invariant(self);
            use_type_invariant(other);
        }
        match (self.inner, other.inner) {
            (JsStrVariant::Ascii(x), JsStrVariant::Ascii(y)) => {
                let same = eq_bytes(x, y);
                proof {
                    if !same && widen(x@) == widen(y@) {
                        assert(x@.len() == widen(x@).len());
                        assert(y@.len() == widen(y@).len());
                        assert forall|i: int| 0 <= i < x@.len() implies x@[i] == y@[i] by {
                            assert(widen(x@)[i] == widen(y@)[i]);
                        }
                        assert(x@ =~= y@);
                    }
                }
                same
            },
            (JsStrVariant::U16(x), JsStrVariant::U16(y)) => eq_units(x, y),
            (JsStrVariant::Ascii(x), JsStrVariant::U16(_)) => {
                proof {
                    lemma_widen_ascii(x@);
                }
                false
            },
            (JsStrVariant::U16(_), JsStrVariant::Ascii(y)) => {
                proof {
                    lemma_widen_ascii(y@);
                }
                false
            },
        }
    }
}

impl<'a> PartialEqSpecImpl for JsStr<'a> {
    open spec fn obeys_eq_spec() -> bool {
        true
    }

    open spec fn eq_spec(&self, other: &Self) -> bool {
        self@ == other@
    }
}

impl<'a> Eq for JsStr<'a> {

}

/// The content of a string decides its storage and what the storage holds: two storages of
/// the same code units are both bytes, and then of the same bytes, or both 16-bit words.
pub proof fn lemma_storage_of_content(a: JsStrVariant<'_>, b: JsStrVariant<'_>)
    requires
        a.wf(),
        b.wf(),
        a@ == b@,
    ensures
        match (a, b) {
            (JsStrVariant::Ascii(x), JsStrVariant::Ascii(y)) => x@ == y@,
            (JsStrVariant::U16(x), JsStrVariant::U16(y)) => x@ == y@,
            _ => false,
        },
{
    match (a, b) {
        (JsStrVariant::Ascii(x), JsStrVariant::Ascii(y)) => {
            assert(x@.len() == widen(x@).len());
            assert(y@.len() == widen(y@).len());
            assert forall|i: int| 0 <= i < x@.len() implies x@[i] == y@[i] by {
                assert(widen(x@)[i] == widen(y@)[i]);
            }
            assert(x@ =~= y@);
        },
        (JsStrVariant::U16(_), JsStrVariant::U16(_)) => {},
        (JsStrVariant::Ascii(x), JsStrVariant::U16(_)) => {
            lemma_widen_ascii(x@);
        },
        (JsStrVariant::U16(_), JsStrVariant::Ascii(y)) => {
            lemma_widen_ascii(y@);
        },
    }
}

} // verus!
