//! Comparison of the contents of two slices of code units, in either storage.

use crate::unicode::widen;
use vstd::prelude::*;

verus! {

/// Tells whether two byte slices hold the same bytes.
pub fn eq_bytes(a: &[u8], b: &[u8]) -> (r: bool)
    ensures
        r == (a@ == b@),
{
    if a.len() != b.len() {
        return false;
    }
    let mut i: usize = 0;
    while i < a.len()
        invariant
            i <= a.len(),
            a.len() == b.len(),
            forall|j: int| 0 <= j < i ==> a@[j] == b@[j],
        decreases a.len() - i,
    {
        if a[i] != b[i] {
            return false;
        }
        i += 1;
    }
    assert(a@ =~= b@);
    true
}

/// Tells whether two slices hold the same code units.
pub fn eq_units(a: &[u16], b: &[u16]) -> (r: bool)
    ensures
        r == (a@ == b@),
{
    if a.len() != b.len() {
        return false;
    }
    let mut i: usize = 0;
    while i < a.len()
        invariant
            i <= a.len(),
            a.len() == b.len(),
            forall|j: int| 0 <= j < i ==> a@[j] == b@[j],
        decreases a.len() - i,
    {
        if a[i] != b[i] {
            return false;
        }
        i += 1;
    }
    assert(a@ =~= b@);
    true
}

/// Tells whether the bytes of one-byte-per-character storage stand for the given code units.
pub fn eq_bytes_units(a: &[u8], b: &[u16]) -> (r: bool)
    ensures
        r == (widen(a@) == b@),
{
    if a.len() != b.len() {
        return false;
    }
    let mut i: usize = 0;
    while i < a.len()
        invariant
            i <= a.len(),
            a.len() == b.len(),
            forall|j: int| 0 <= j < i ==> widen(a@)[j] == b@[j],
        decreases a.len() - i,
    {
        if a[i] as u16 != b[i] {
            assert(widen(a@)[i as int] != b@[i as int]);
            return false;
        }
        i += 1;
    }
    assert(widen(a@) =~= b@);
    true
}

/// The sign of the lexicographic comparison of two strings: negative where the first comes
/// before the second, zero where they are the same string, positive otherwise. The first
/// code unit in which the strings differ decides; where there is none, the shorter string
/// comes first.
pub open spec fn units_sign(a: Seq<u16>, b: Seq<u16>) -> int
    decreases a.len(),
{
    if a.len() == 0 {
        if b.len() == 0 {
            0
        } else {
            -1
        }
    } else if b.len() == 0 {
        1
    } else if a[0] < b[0] {
        -1
    } else if a[0] > b[0] {
        1
    } else {
        units_sign(a.drop_first(), b.drop_first())
    }
}

/// Two strings that start with the same code units compare as what follows them.
pub proof fn lemma_units_sign_common_prefix(a: Seq<u16>, b: Seq<u16>, count: int)
    requires
        0 <= count <= a.len(),
        count <= b.len(),
        forall|i: int| 0 <= i < count ==> a[i] == b[i],
    ensures
        units_sign(a, b) == units_sign(a.skip(count), b.skip(count)),
    decreases count,
{
    if count == 0 {
        assert(a.skip(0) =~= a);
        assert(b.skip(0) =~= b);
    } else {
        assert(a[0] == b[0]);
        let x = a.drop_first();
        let y = b.drop_first();
        assert forall|i: int| 0 <= i < count - 1 implies x[i] == y[i] by {
            assert(a[i + 1] == b[i + 1]);
        }
        lemma_units_sign_common_prefix(x, y, count - 1);
        assert(x.skip(count - 1) =~= a.skip(count));
        assert(y.skip(count - 1) =~= b.skip(count));
    }
}

/// Computes the sign of the lexicographic comparison of two slices of code units.
pub fn sign_of_units(a: &[u16], b: &[u16]) -> (r: i8)
    ensures
        r == units_sign(a@, b@),
{
    let mut i: usize = 0;
    while i < a.len() && i < b.len()
        invariant
            i <= a.len(),
            i <= b.len(),
            forall|j: int| 0 <= j < i ==> a@[j] == b@[j],
        decreases a.len() - i,
    {
        if a[i] != b[i] {
            proof {
                lemma_units_sign_common_prefix(a@, b@, i as int);
                assert(a@.skip(i as int)[0] == a@[i as int]);
                assert(b@.skip(i as int)[0] == b@[i as int]);
            }
            return if a[i] < b[i] {
                -1
            } else {
                1
            };
        }
        i += 1;
    }
    proof {
        lemma_units_sign_common_prefix(a@, b@, i as int);
    }
    if i < b.len() {
        -1
    } else if i < a.len() {
        1
    } else {
        0
    }
}

/// Two strings compare as equal exactly when they are the same string.
pub proof fn lemma_units_sign_zero(a: Seq<u16>, b: Seq<u16>)
    ensures
        units_sign(a, b) == 0 <==> a == b,
        -1 <= units_sign(a, b) <= 1,
    decreases a.len(),
{
    if a.len() > 0 && b.len() > 0 {
        lemma_units_sign_zero(a.drop_first(), b.drop_first());
        if a[0] == b[0] && a.drop_first() == b.drop_first() {
            assert(a =~= seq![a[0]] + a.drop_first());
            assert(b =~= seq![b[0]] + b.drop_first());
        }
    }
    if a.len() == 0 && b.len() == 0 {
        assert(a =~= b);
    }
}

/// Comparing two strings the other way round gives the opposite sign.
pub proof fn lemma_units_sign_antisymmetric(a: Seq<u16>, b: Seq<u16>)
    ensures
        units_sign(b, a) == -units_sign(a, b),
    decreases a.len(),
{
    if a.len() > 0 && b.len() > 0 {
        lemma_units_sign_antisymmetric(a.drop_first(), b.drop_first());
    }
}

/// A string that comes before or with a second, which comes before or with a third, comes
/// before or with the third; and before it where either of the two comes before.
pub proof fn lemma_units_sign_transitive(a: Seq<u16>, b: Seq<u16>, c: Seq<u16>)
    requires
        units_sign(a, b) <= 0,
        units_sign(b, c) <= 0,
    ensures
        units_sign(a, c) <= 0,
        units_sign(a, b) < 0 || units_sign(b, c) < 0 ==> units_sign(a, c) < 0,
    decreases a.len(),
{
    if a.len() > 0 && b.len() > 0 && c.len() > 0 {
        if a[0] == b[0] && b[0] == c[0] {
            lemma_units_sign_transitive(a.drop_first(), b.drop_first(), c.drop_first());
        }
    }
}

} // verus!
