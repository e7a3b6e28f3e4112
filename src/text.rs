//! Bounded text: at most a given number of bytes, cut at the first null byte
//! and at the first byte that does not decode as UTF-8.
use vstd::prelude::*;
use vstd::utf8::{decode_utf8, valid_utf8};

use crate::channel::{read_prims, MemError, Target};

verus! {

/// The position of the first null byte of `b`, or its length if it has none.
pub open spec fn nul_index(b: Seq<u8>) -> int
    decreases b.len(),
{
    if b.len() == 0 || b[0] == 0 {
        0
    } else {
        1 + nul_index(b.skip(1))
    }
}

/// The bytes of `b` before its first null byte.
pub open spec fn before_nul(b: Seq<u8>) -> Seq<u8> {
    b.take(nul_index(b))
}

/// The length of the longest prefix of `b`, of at most `k` bytes, that is valid UTF-8.
pub open spec fn longest_valid(b: Seq<u8>, k: int) -> int
    decreases k,
{
    if k <= 0 {
        0
    } else if valid_utf8(b.take(k)) {
        k
    } else {
        longest_valid(b, k - 1)
    }
}

/// The longest prefix of `b` that is valid UTF-8.
pub open spec fn valid_prefix(b: Seq<u8>) -> Seq<u8> {
    b.take(longest_valid(b, b.len() as int))
}

/// The text that a run of raw bytes holds: up to the first null byte, and of
/// that the longest part that decodes.
pub open spec fn text_of(b: Seq<u8>) -> Seq<char> {
    decode_utf8(valid_prefix(before_nul(b)))
}

/// Relies on `String::from_utf8`, which succeeds exactly on valid UTF-8 and
/// then holds the decoded characters, and on `Utf8Error::valid_up_to`, which
/// gives the length of the longest valid prefix.
#[verifier::external_body]
pub(crate) fn utf8_decode(b: Vec<u8>) -> (r: Result<String, usize>)
    ensures
        match r {
            Ok(s) => valid_utf8(b@) && s@ == decode_utf8(b@),
            Err(n) => !valid_utf8(b@) && n == longest_valid(b@, b@.len() as int),
        },
{
    match String::from_utf8(b) {
        Ok(s) => Ok(s),
        Err(e) => Err(e.utf8_error().valid_up_to()),
    }
}

proof fn lemma_nul_index(b: Seq<u8>, i: int)
    requires
        0 <= i <= b.len(),
        forall|j: int| 0 <= j < i ==> b[j] != 0,
        i == b.len() || b[i] == 0,
    ensures
        nul_index(b) == i,
    decreases i,
{
    if i > 0 {
        lemma_nul_index(b.skip(1), i - 1);
    }
}

proof fn lemma_longest_valid(b: Seq<u8>, k: int)
    requires
        0 <= k <= b.len(),
    ensures
        0 <= longest_valid(b, k) <= k,
        valid_utf8(b.take(longest_valid(b, k))),
    decreases k,
{
    if k == 0 {
        assert(b.take(0) =~= Seq::<u8>::empty());
    } else if !valid_utf8(b.take(k)) {
        lemma_longest_valid(b, k - 1);
    }
}

/// Keeps the bytes of `b` before its first null byte.
pub fn cut_at_nul(b: Vec<u8>) -> (r: Vec<u8>)
    ensures
        r@ == before_nul(b@),
{
    let mut i: usize = 0;
    while i < b.len() && b[i] != 0
        invariant
            i <= b@.len(),
            forall|j: int| 0 <= j < i ==> b@[j] != 0,
        decreases b@.len() - i,
    {
        i += 1;
    }
    proof {
        lemma_nul_index(b@, i as int);
    }
    let mut r = b;
    r.truncate(i);
    r
}

/// Decodes the longest valid UTF-8 prefix of `b`, dropping what follows.
pub fn decode_valid_prefix(b: Vec<u8>) -> (r: String)
    ensures
        r@ == decode_utf8(valid_prefix(b@)),
{
    let ghost whole = b@;
    proof {
        lemma_longest_valid(whole, whole.len() as int);
    }
    match utf8_decode(b.clone()) {
        Ok(s) => {
            assert(whole.take(whole.len() as int) =~= whole);
            s
        },
        Err(n) => {
            let mut p = b;
            p.truncate(n);
            assert(p@ == valid_prefix(whole));
            match utf8_decode(p) {
                Ok(s) => s,
                Err(_) => {
                    assert(false);
                    String::new()
                },
            }
        },
    }
}

/// Reads at most `max_bytes` bytes at `address` as text: cut at the first
/// null byte, then at the first byte that does not decode. Only a failed
/// transfer is an error.
pub fn read_string(target: &Target, address: usize, max_bytes: usize) -> (r: Result<String, MemError>)
    ensures
        *target matches Target::Image(img) ==> match img.read_spec(address as int, 1, max_bytes as int) {
            Ok(b) => r matches Ok(s) && s@ == text_of(b),
            Err(e) => r matches Err(e2) && e2 == e,
        },
        r matches Ok(s) ==> exists|b: Seq<u8>| b.len() <= max_bytes && s@ == text_of(b),
        *target matches Target::Live(_) ==> (r matches Err(e) ==> (e matches MemError::Os(_) || e
            matches MemError::TooLarge(_))),
{
    let bytes = read_prims(target, address, 1, max_bytes)?;
    let ghost b = bytes@;
    let s = decode_valid_prefix(cut_at_nul(bytes));
    assert(b.len() <= max_bytes && s@ == text_of(b));
    Ok(s)
}

/// Text that stops at a byte that cannot be decoded, with no null byte before
/// it, is exactly the valid part in front of that byte.
pub proof fn lemma_text_is_valid_prefix(b: Seq<u8>, k: int)
    requires
        0 <= k <= b.len(),
        forall|j: int| 0 <= j < b.len() ==> b[j] != 0,
        valid_utf8(b.take(k)),
        forall|m: int| k < m <= b.len() ==> !valid_utf8(#[trigger] b.take(m)),
    ensures
        text_of(b) == decode_utf8(b.take(k)),
{
    lemma_nul_index(b, b.len() as int);
    assert(before_nul(b) =~= b);
    lemma_longest_from_top(b, k, b.len() as int);
}

proof fn lemma_longest_from_top(b: Seq<u8>, k: int, m: int)
    requires
        0 <= k <= m <= b.len(),
        valid_utf8(b.take(k)),
        forall|j: int| k < j <= b.len() ==> !valid_utf8(#[trigger] b.take(j)),
    ensures
        longest_valid(b, m) == k,
    decreases m,
{
    if m > k {
        lemma_longest_from_top(b, k, m - 1);
    } else if k > 0 {
    }
}

} // verus!
