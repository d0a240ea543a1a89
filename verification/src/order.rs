//! The order of strings, which is the lexicographic order of their code units, and hashing,
//! which feeds a hasher the content of a string in the storage that holds it.

use crate::compare::{lemma_units_sign_antisymmetric, lemma_units_sign_transitive,
    lemma_units_sign_zero, sign_of_units, units_sign};
use crate::js_str::JsStrVariant;
use crate::js_string::JsString;
use std::cmp::Ordering;
use std::hash::{Hash, Hasher};
use vstd::prelude::*;
use vstd::std_specs::cmp::PartialOrdSpecImpl;

verus! {

/// The order that a sign stands for.
pub open spec fn order_of(sign: int) -> Ordering {
    if sign < 0 {
        Ordering::Less
    } else if sign == 0 {
        Ordering::Equal
    } else {
        Ordering::Greater
    }
}

impl JsString {
    /// Compares two strings by their code units, in lexicographic order. The order takes no
    /// account of locale.
    pub fn cmp(&self, other: &Self) -> (r: Ordering)
        ensures
            r == order_of(units_sign(self@, other@)),
    {
        let this = self.to_vec();
        let that = other.to_vec();
        let sign = sign_of_units(this.as_slice(), that.as_slice());
        if sign < 0 {
            Ordering::Less
        } else if sign == 0 {
            Ordering::Equal
        } else {
            Ordering::Greater
        }
    }
}

impl PartialOrd for JsString {
    /// Any two strings are comparable.
    fn partial_cmp(&self, other: &Self) -> (r: Option<Ordering>) {
        Some(self.cmp(other))
    }
}

impl PartialOrdSpecImpl for JsString {
    open spec fn obeys_partial_cmp_spec() -> bool {
        true
    }

    open spec fn partial_cmp_spec(&self, other: &Self) -> Option<Ordering> {
        Some(order_of(units_sign(self@, other@)))
    }
}

/// `Hash::hash` of the standard library, for a slice of bytes.
#[verifier::external_body]
fn hash_bytes<H: Hasher>(bytes: &[u8], state: &mut H) {
    bytes.hash(state)
}

/// `Hash::hash` of the standard library, for a slice of 16-bit words.
#[verifier::external_body]
fn hash_units<H: Hasher>(units: &[u16], state: &mut H) {
    units.hash(state)
}

impl Hash for JsString {
    /// Feeds the hasher the content of the string as a slice: of bytes where the string is all
    /// ASCII, of code units otherwise. Strings that are equal feed the same data.
    fn hash<H: Hasher>(&self, state: &mut H) {
        match self.as_str().variant() {
            JsStrVariant::Ascii(s) => hash_bytes(s, state),
            JsStrVariant::U16(s) => hash_units(s, state),
        }
    }
}

/// Strings of the same content compare as equal, and compare alike with any third string.
pub proof fn lemma_equal_content(a: JsString, b: JsString, c: JsString)
    requires
        a@ == b@,
    ensures
        order_of(units_sign(a@, b@)) == Ordering::Equal,
        order_of(units_sign(a@, c@)) == order_of(units_sign(b@, c@)),
        order_of(units_sign(c@, a@)) == order_of(units_sign(c@, b@)),
{
    lemma_units_sign_zero(a@, b@);
}

/// The order of strings is total: two strings compare as equal exactly when they hold the
/// same code units, and one comes before the other exactly when the other comes after it.
pub proof fn lemma_order_total(a: JsString, b: JsString)
    ensures
        order_of(units_sign(a@, b@)) == Ordering::Equal <==> a@ == b@,
        order_of(units_sign(a@, b@)) == Ordering::Less <==> order_of(units_sign(b@, a@))
            == Ordering::Greater,
{
    lemma_units_sign_zero(a@, b@);
    lemma_units_sign_antisymmetric(a@, b@);
}

/// The order of strings is transitive.
pub proof fn lemma_order_transitive(a: JsString, b: JsString, c: JsString)
    requires
        order_of(units_sign(a@, b@)) == Ordering::Less,
        order_of(units_sign(b@, c@)) == Ordering::Less,
    ensures
        order_of(units_sign(a@, c@)) == Ordering::Less,
{
    lemma_units_sign_transitive(a@, b@, c@);
}

} // verus!
