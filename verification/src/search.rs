//! Searching a string for another.

use crate::builder::{push_units, push_widened};
use crate::js_str::{JsStr, JsStrVariant};
use crate::js_string::JsString;
use vstd::prelude::*;

verus! {

/// The needle stands in the haystack at `index`.
pub open spec fn matches_at(haystack: Seq<u16>, needle: Seq<u16>, index: int) -> bool {
    0 <= index && index + needle.len() <= haystack.len() && haystack.subrange(
        index,
        index + needle.len(),
    ) == needle
}

/// `result` is the answer of a search from `from`: the smallest index at or after `from` at
/// which the needle stands in the haystack, or nothing where there is no such index.
pub open spec fn is_index_of(
    haystack: Seq<u16>,
    needle: Seq<u16>,
    from: int,
    result: Option<usize>,
) -> bool {
    match result {
        Some(index) => from <= index && matches_at(haystack, needle, index as int) && forall|
            earlier: int,
        |
            from <= earlier < index ==> !#[trigger] matches_at(haystack, needle, earlier),
        None => forall|index: int|
            from <= index ==> !#[trigger] matches_at(haystack, needle, index),
    }
}

/// A search from `from` has one answer only.
pub proof fn lemma_index_of_unique(
    haystack: Seq<u16>,
    needle: Seq<u16>,
    from: int,
    first: Option<usize>,
    second: Option<usize>,
)
    requires
        is_index_of(haystack, needle, from, first),
        is_index_of(haystack, needle, from, second),
    ensures
        first == second,
{
    match (first, second) {
        (Some(a), Some(b)) => {
            if a < b {
                assert(matches_at(haystack, needle, a as int));
            } else if b < a {
                assert(matches_at(haystack, needle, b as int));
            }
        },
        (Some(a), None) => {
            assert(matches_at(haystack, needle, a as int));
        },
        (None, Some(b)) => {
            assert(matches_at(haystack, needle, b as int));
        },
        (None, None) => {},
    }
}

/// The empty string is found where the search starts, as long as that is not past the end of
/// the haystack.
pub proof fn lemma_index_of_empty(haystack: Seq<u16>, from: usize, result: Option<usize>)
    requires
        is_index_of(haystack, Seq::empty(), from as int, result),
    ensures
        result == (if from <= haystack.len() {
            Some(from)
        } else {
            None::<usize>
        }),
{
    let needle = Seq::<u16>::empty();
    if from <= haystack.len() {
        assert(haystack.subrange(from as int, from as int) =~= needle);
        assert(matches_at(haystack, needle, from as int));
    }
    match result {
        Some(index) => {
            if index > from {
                assert(index <= haystack.len());
                assert(matches_at(haystack, needle, from as int));
            }
        },
        None => {},
    }
}

/// Copies the code units of a view.
pub(crate) fn units_of(value: JsStr<'_>) -> (r: Vec<u16>)
    ensures
        r@ == value@,
{
    let mut out: Vec<u16> = Vec::new();
    match value.variant() {
        JsStrVariant::Ascii(v) => push_widened(&mut out, v),
        JsStrVariant::U16(v) => push_units(&mut out, v),
    }
    assert(out@ =~= value@);
    out
}

/// Tells whether the needle stands in the haystack at `index`.
fn window_matches(haystack: &[u16], needle: &[u16], index: usize) -> (r: bool)
    requires
        index + needle@.len() <= haystack@.len(),
    ensures
        r == matches_at(haystack@, needle@, index as int),
{
    let total = haystack.len();
    let mut k: usize = 0;
    while k < needle.len()
        invariant
            k <= needle.len(),
            total == haystack@.len(),
            index + needle@.len() <= haystack@.len(),
            forall|j: int| 0 <= j < k ==> haystack@[index + j] == needle@[j],
        decreases needle.len() - k,
    {
        if haystack[index + k] != needle[k] {
            assert(haystack@.subrange(index as int, index + needle@.len())[k as int]
                != needle@[k as int]);
            return false;
        }
        k += 1;
    }
    assert(haystack@.subrange(index as int, index + needle@.len()) =~= needle@);
    true
}

impl JsString {
    /// Abstract operation `StringIndexOf ( string, searchValue, fromIndex )`.
    ///
    /// Returns the smallest index at or after `from_index` at which `search_value` stands in
    /// the string, and `None` where it stands at no such index. The empty string is found at
    /// `from_index` as long as `from_index` is not past the end of the string.
    pub fn index_of(&self, search_value: &JsStr<'_>, from_index: usize) -> (r: Option<usize>)
        ensures
            is_index_of(self@, search_value@, from_index as int, r),
    {
        let this = self.to_vec();
        let search = units_of(*search_value);
        let len = this.len();
        let search_len = search.len();

        if search_len == 0 {
            return if from_index <= len {
                assert(this@.subrange(from_index as int, from_index as int) =~= search@);
                Some(from_index)
            } else {
                None
            };
        }
        if search_len > len {
            return None;
        }
        let last = len - search_len;
        let mut index = from_index;
        while index <= last
            invariant
                this@ == self@,
                search@ == search_value@,
                len == this@.len(),
                search_len == search@.len(),
                last == len - search_len,
                search_len > 0,
                from_index <= index,
                forall|earlier: int|
                    from_index <= earlier < index ==> !#[trigger] matches_at(
                        self@,
                        search_value@,
                        earlier,
                    ),
            decreases last + 1 - index,
        {
            if window_matches(this.as_slice(), search.as_slice(), index) {
                return Some(index);
            }
            index += 1;
        }
        None
    }
}

} // verus!
