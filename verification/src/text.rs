//! Strings as the bytes that encode them.
//!
//! Race names, power tiers and time codes are compared byte by byte, so the
//! contracts of this crate speak of a string through its UTF-8 encoding.

use vstd::prelude::*;
use vstd::string::StringSliceAdditionalSpecFns;

verus! {

/// The UTF-8 encoding of a string.
pub open spec fn text_bytes(s: Seq<char>) -> Seq<u8> {
    vstd::utf8::encode_utf8(s)
}

/// The lower-case form of an ASCII letter; every other byte stays as it is.
pub open spec fn ascii_lower(b: u8) -> u8 {
    if 0x41 <= b <= 0x5a {
        (b + 0x20) as u8
    } else {
        b
    }
}

/// Whether `s` spells `word` when upper-case ASCII letters are folded to
/// lower case.
pub open spec fn spells_ignoring_case(s: Seq<u8>, word: Seq<u8>) -> bool {
    &&& s.len() == word.len()
    &&& forall|i: int| 0 <= i < s.len() ==> ascii_lower(#[trigger] s[i]) == word[i]
}

/// The bytes of a string slice.
pub fn str_bytes(s: &str) -> (bytes: &[u8])
    ensures
        bytes@ == text_bytes(s@),
{
    s.as_bytes()
}

/// Folds an upper-case ASCII letter to lower case.
pub fn to_ascii_lower(b: u8) -> (lower: u8)
    ensures
        lower == ascii_lower(b),
{
    if 0x41 <= b && b <= 0x5a {
        b + 0x20
    } else {
        b
    }
}

/// Whether two byte strings are equal.
pub fn bytes_equal(a: &[u8], b: &[u8]) -> (same: bool)
    ensures
        same == (a@ == b@),
{
    if a.len() != b.len() {
        return false;
    }
    let mut i: usize = 0;
    while i < a.len()
        invariant
            a@.len() == b@.len(),
            i <= a@.len(),
            forall|j: int| 0 <= j < i ==> a@[j] == b@[j],
        decreases a@.len() - i,
    {
        if a[i] != b[i] {
            return false;
        }
        i += 1;
    }
    assert(a@ =~= b@);
    true
}

/// Whether `s` spells `word` once its upper-case ASCII letters are folded.
pub fn bytes_spell_ignoring_case(s: &[u8], word: &[u8]) -> (same: bool)
    ensures
        same == spells_ignoring_case(s@, word@),
{
    if s.len() != word.len() {
        return false;
    }
    let mut i: usize = 0;
    while i < s.len()
        invariant
            s@.len() == word@.len(),
            i <= s@.len(),
            forall|j: int| 0 <= j < i ==> ascii_lower(#[trigger] s@[j]) == word@[j],
        decreases s@.len() - i,
    {
        if to_ascii_lower(s[i]) != word[i] {
            return false;
        }
        i += 1;
    }
    true
}

} // verus!
