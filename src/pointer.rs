//! Pointer paths: a base address and a chain of offsets, each hop reading one
//! address-width value.
use vstd::prelude::*;

use crate::channel::{read_word, MemError, MemoryImage, Target};

verus! {

/// One hop: add `offset` to `address` and read the address-width value there.
pub open spec fn hop(img: MemoryImage, address: usize, offset: usize) -> Result<usize, MemError> {
    if address + offset > usize::MAX {
        Err(MemError::Overflow)
    } else {
        match img.word_spec(address + offset) {
            Ok(w) => Ok(w as usize),
            Err(e) => Err(e),
        }
    }
}

/// Follows `offsets` from `address`, one hop each, stopping at the first failure.
pub open spec fn chase(img: MemoryImage, address: usize, offsets: Seq<usize>) -> Result<usize, MemError>
    decreases offsets.len(),
{
    if offsets.len() == 0 {
        Ok(address)
    } else {
        match hop(img, address, offsets[0]) {
            Ok(a) => chase(img, a, offsets.skip(1)),
            Err(e) => Err(e),
        }
    }
}

/// The address that a pointer path names: the value at `base`, then one hop per offset.
pub open spec fn resolve_spec(img: MemoryImage, base: usize, offsets: Seq<usize>) -> Result<usize, MemError> {
    match img.word_spec(base as int) {
        Ok(w) => chase(img, w as usize, offsets),
        Err(e) => Err(e),
    }
}

/// The offsets of an optional list; none stands for the empty list.
pub open spec fn offsets_of(offsets: Option<&Vec<usize>>) -> Seq<usize> {
    match offsets {
        Some(v) => v@,
        None => Seq::empty(),
    }
}

/// Resolves the pointer path at `base` through `offsets` (none meaning a
/// single dereference). The first failing hop ends the resolution.
pub fn get_pointer_path(target: &Target, base: usize, offsets: Option<&Vec<usize>>) -> (r: Result<usize, MemError>)
    ensures
        *target matches Target::Image(img) ==> r == resolve_spec(img, base, offsets_of(offsets)),
        r matches Ok(a) ==> a <= u32::MAX,
{
    let first = read_word(target, base)?;
    let mut cur: usize = first as usize;
    if let Some(offs) = offsets {
        let mut i: usize = 0;
        assert(offs@.skip(0) =~= offs@);
        while i < offs.len()
            invariant
                i <= offs@.len(),
                cur <= u32::MAX,
                offsets_of(offsets) == offs@,
                *target matches Target::Image(img) ==> resolve_spec(img, base, offs@) == chase(
                    img,
                    cur,
                    offs@.skip(i as int),
                ),
            decreases offs@.len() - i,
        {
            assert(offs@.skip(i as int).skip(1) =~= offs@.skip(i + 1));
            if cur > usize::MAX - offs[i] {
                return Err(MemError::Overflow);
            }
            cur = read_word(target, cur + offs[i])? as usize;
            i += 1;
        }
        assert(offs@.skip(i as int) =~= Seq::<usize>::empty());
    }
    Ok(cur)
}

/// A path with no offsets is a single address-width read at the base.
pub proof fn lemma_empty_path_is_one_read(img: MemoryImage, base: usize)
    ensures
        resolve_spec(img, base, Seq::empty()) == match img.word_spec(base as int) {
            Ok(w) => Ok::<usize, MemError>(w as usize),
            Err(e) => Err(e),
        },
{
}

/// Following one more offset is one more hop from the address reached so far.
pub proof fn lemma_chase_push(img: MemoryImage, address: usize, offsets: Seq<usize>, last: usize)
    ensures
        chase(img, address, offsets.push(last)) == match chase(img, address, offsets) {
            Ok(a) => hop(img, a, last),
            Err(e) => Err(e),
        },
    decreases offsets.len(),
{
    if offsets.len() == 0 {
        assert(offsets.push(last).skip(1) =~= Seq::<usize>::empty());
        assert(offsets.push(last)[0] == last);
        if let Ok(b) = hop(img, address, last) {
            assert(chase(img, b, Seq::<usize>::empty()) == Ok::<usize, MemError>(b));
        }
    } else {
        assert(offsets.push(last).skip(1) =~= offsets.skip(1).push(last));
        assert(offsets.push(last)[0] == offsets[0]);
        match hop(img, address, offsets[0]) {
            Ok(a) => lemma_chase_push(img, a, offsets.skip(1), last),
            Err(e) => {},
        }
    }
}

/// Resolving `[o1, .., on]` is dereferencing step by step: the address for the
/// first `n - 1` offsets, then one hop by `on`; a failure anywhere is the result.
pub proof fn lemma_resolve_is_iterated_hops(img: MemoryImage, base: usize, offsets: Seq<usize>, last: usize)
    ensures
        resolve_spec(img, base, offsets.push(last)) == match resolve_spec(img, base, offsets) {
            Ok(a) => hop(img, a, last),
            Err(e) => Err(e),
        },
{
    if let Ok(w) = img.word_spec(base as int) {
        lemma_chase_push(img, w as usize, offsets, last);
    }
}

} // verus!
