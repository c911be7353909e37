//! Verified string primitives.
//!
//! Comparison and search work on the UTF-8 bytes of the strings involved;
//! the UTF-8 round-trip lemmas of vstd connect byte equality back to
//! character-sequence equality.

use vstd::prelude::*;

verus! {

use vstd::string::StringSliceAdditionalSpecFns;
use vstd::utf8::encode_utf8_decode_utf8;

/// True when `needle` occurs in `hay` starting at position `i`.
pub open spec fn matches_at(hay: Seq<u8>, needle: Seq<u8>, i: int) -> bool {
    0 <= i && i + needle.len() <= hay.len() && hay.subrange(i, i + needle.len()) == needle
}

/// True when `needle` occurs anywhere in `hay`.
pub open spec fn contains_seq(hay: Seq<u8>, needle: Seq<u8>) -> bool {
    exists|i: int| matches_at(hay, needle, i)
}

/// True when `hay` begins with `needle`.
pub open spec fn starts_with_seq(hay: Seq<u8>, needle: Seq<u8>) -> bool {
    matches_at(hay, needle, 0)
}

/// True when `hay` ends with `needle`.
pub open spec fn ends_with_seq(hay: Seq<u8>, needle: Seq<u8>) -> bool {
    matches_at(hay, needle, hay.len() - needle.len())
}

/// Byte-slice equality.
pub fn bytes_eq(a: &[u8], b: &[u8]) -> (r: bool)
    ensures
        r == (a@ == b@),
{
    if a.len() != b.len() {
        return false;
    }
    let mut i: usize = 0;
    while i < a.len()
        invariant
            a@.len() == b@.len(),
            i <= a@.len(),
            forall|k: int| 0 <= k < i ==> a@[k] == b@[k],
        decreases a@.len() - i,
    {
        if a[i] != b[i] {
            return false;
        }
        i = i + 1;
    }
    proof {
        assert(a@ =~= b@);
    }
    true
}

/// Character-for-character string equality.
pub fn str_eq(a: &str, b: &str) -> (r: bool)
    ensures
        r == (a@ == b@),
{
    let r = bytes_eq(a.as_bytes(), b.as_bytes());
    proof {
        if a.spec_bytes() == b.spec_bytes() {
            encode_utf8_decode_utf8(a@);
            encode_utf8_decode_utf8(b@);
        }
    }
    r
}

/// True when `needle` occurs in `hay` at exactly position `i`.
fn bytes_match_at(hay: &[u8], needle: &[u8], i: usize) -> (r: bool)
    requires
        i + needle@.len() <= hay@.len(),
    ensures
        r == matches_at(hay@, needle@, i as int),
{
    let hlen: usize = hay.len();
    let mut k: usize = 0;
    while k < needle.len()
        invariant
            hay@.len() == hlen,
            i + needle@.len() <= hay@.len(),
            k <= needle@.len(),
            forall|j: int| 0 <= j < k ==> hay@[i + j] == needle@[j],
        decreases needle@.len() - k,
    {
        if hay[i + k] != needle[k] {
            proof {
                assert(hay@.subrange(i as int, i + needle@.len())[k as int] != needle@[k as int]);
            }
            return false;
        }
        k = k + 1;
    }
    proof {
        assert(hay@.subrange(i as int, i + needle@.len()) =~= needle@);
    }
    true
}

/// Byte-level prefix test.
pub fn bytes_starts_with(hay: &[u8], needle: &[u8]) -> (r: bool)
    ensures
        r == starts_with_seq(hay@, needle@),
{
    if needle.len() > hay.len() {
        return false;
    }
    bytes_match_at(hay, needle, 0)
}

/// Byte-level suffix test.
pub fn bytes_ends_with(hay: &[u8], needle: &[u8]) -> (r: bool)
    ensures
        r == ends_with_seq(hay@, needle@),
{
    if needle.len() > hay.len() {
        return false;
    }
    bytes_match_at(hay, needle, hay.len() - needle.len())
}

/// Byte-level substring search.
pub fn bytes_contains(hay: &[u8], needle: &[u8]) -> (r: bool)
    ensures
        r == contains_seq(hay@, needle@),
{
    if needle.len() > hay.len() {
        proof {
            assert(forall|i: int| !matches_at(hay@, needle@, i));
        }
        return false;
    }
    let bound: usize = hay.len() - needle.len();
    let mut i: usize = 0;
    while i <= bound
        invariant
            needle@.len() <= hay@.len(),
            bound == hay@.len() - needle@.len(),
            i <= bound + 1,
            forall|j: int| 0 <= j < i ==> !matches_at(hay@, needle@, j),
        decreases bound + 1 - i,
    {
        if bytes_match_at(hay, needle, i) {
            proof {
                assert(matches_at(hay@, needle@, i as int));
            }
            return true;
        }
        if i == bound {
            proof {
                assert(forall|j: int| matches_at(hay@, needle@, j) ==> 0 <= j <= bound);
            }
            return false;
        }
        i = i + 1;
    }
    proof {
        assert(forall|j: int| matches_at(hay@, needle@, j) ==> 0 <= j <= bound);
    }
    false
}

/// `starts_with` on strings, over their UTF-8 bytes.
pub fn str_starts_with(hay: &str, needle: &str) -> (r: bool)
    ensures
        r == starts_with_seq(hay.spec_bytes(), needle.spec_bytes()),
{
    bytes_starts_with(hay.as_bytes(), needle.as_bytes())
}

/// `ends_with` on strings, over their UTF-8 bytes.
pub fn str_ends_with(hay: &str, needle: &str) -> (r: bool)
    ensures
        r == ends_with_seq(hay.spec_bytes(), needle.spec_bytes()),
{
    bytes_ends_with(hay.as_bytes(), needle.as_bytes())
}

/// Substring test on strings, over their UTF-8 bytes.
pub fn str_contains(hay: &str, needle: &str) -> (r: bool)
    ensures
        r == contains_seq(hay.spec_bytes(), needle.spec_bytes()),
{
    bytes_contains(hay.as_bytes(), needle.as_bytes())
}

} // verus!
