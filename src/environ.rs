//! The environment block of a process: `KEY=value` records, each ended by a
//! null byte.
use vstd::prelude::*;
use vstd::utf8::{decode_utf8, valid_utf8};

use crate::registry::{insert_unique, names_unique, unique_fold};
use crate::text::utf8_decode;

verus! {

/// The first position at or after `pos` that holds `stop`, or the length of `buf`.
pub open spec fn find_from(buf: Seq<u8>, pos: int, stop: u8) -> int
    decreases buf.len() - pos,
{
    if pos >= buf.len() {
        buf.len() as int
    } else if buf[pos] == stop {
        pos
    } else {
        find_from(buf, pos + 1, stop)
    }
}

/// The records of `buf` from `pos` on, in order. A key runs up to the first
/// `=`, a value from there up to the first null byte; a key or a value that
/// is not valid UTF-8 drops its record, and scanning resumes just after the
/// byte that ended the part that failed.
pub open spec fn env_records(buf: Seq<u8>, pos: int) -> Seq<(Seq<char>, Seq<char>)>
    decreases buf.len() - pos via env_records_decreases
{
    if pos < 0 || pos >= buf.len() {
        Seq::empty()
    } else {
        let k = find_from(buf, pos, 61u8);
        let p1 = if k < buf.len() { k + 1 } else { k };
        let key = buf.subrange(pos, k);
        if !valid_utf8(key) {
            env_records(buf, p1)
        } else {
            let z = find_from(buf, p1, 0u8);
            let p2 = if z < buf.len() { z + 1 } else { z };
            let val = buf.subrange(p1, z);
            if !valid_utf8(val) {
                env_records(buf, p2)
            } else {
                seq![(decode_utf8(key), decode_utf8(val))] + env_records(buf, p2)
            }
        }
    }
}

proof fn lemma_find_from_bounds(buf: Seq<u8>, pos: int, stop: u8)
    requires
        0 <= pos <= buf.len(),
    ensures
        pos <= find_from(buf, pos, stop) <= buf.len(),
    decreases buf.len() - pos,
{
    if pos < buf.len() && buf[pos] != stop {
        lemma_find_from_bounds(buf, pos + 1, stop);
    }
}

#[via_fn]
proof fn env_records_decreases(buf: Seq<u8>, pos: int) {
    if 0 <= pos < buf.len() {
        lemma_find_from_bounds(buf, pos, 61u8);
        let k = find_from(buf, pos, 61u8);
        let p1 = if k < buf.len() { k + 1 } else { k };
        lemma_find_from_bounds(buf, p1, 0u8);
    }
}

/// Environment variables: each key once, in the order first met, with the
/// last value given to it.
pub struct Environment {
    pub entries: Vec<(String, String)>,
}

impl View for Environment {
    type V = Seq<(Seq<char>, Seq<char>)>;

    open spec fn view(&self) -> Seq<(Seq<char>, Seq<char>)> {
        self.entries@.map_values(|e: (String, String)| (e.0@, e.1@))
    }
}

impl Environment {
    pub open spec fn wf(&self) -> bool {
        names_unique(self@)
    }

    /// Sets `key` to `val`.
    pub fn insert(&mut self, key: String, val: String)
        requires
            old(self).wf(),
        ensures
            final(self).wf(),
            final(self)@ == insert_unique(old(self)@, key@, val@),
    {
        let ghost pre = self@;
        let ghost v = val@;
        let mut i: usize = 0;
        while i < self.entries.len()
            invariant
                self@ == pre,
                old(self).wf(),
                old(self)@ == pre,
                v == val@,
                i <= pre.len(),
                forall|j: int| 0 <= j < i ==> (#[trigger] pre[j]).0 != key@,
            decreases pre.len() - i,
        {
            if self.entries[i].0 == key {
                proof {
                    assert(pre[i as int] == (self.entries@[i as int].0@, self.entries@[i as int].1@));
                    let k = choose|k: int| 0 <= k < pre.len() && (#[trigger] pre[k]).0 == key@;
                    assert(k == i);
                }
                let ghost kv = key@;
                self.entries.set(i, (key, val));
                assert(self@ =~= pre.update(i as int, (kv, v)));
                return;
            }
            assert(pre[i as int] == (self.entries@[i as int].0@, self.entries@[i as int].1@));
            i += 1;
        }
        let ghost kv = key@;
        self.entries.push((key, val));
        assert(self@ =~= insert_unique(pre, kv, v));
    }

    /// The value of `key`, if it is set.
    pub fn get(&self, key: &str) -> (r: Option<String>)
        requires
            self.wf(),
        ensures
            match r {
                Some(v) => exists|i: int| 0 <= i < self@.len() && (#[trigger] self@[i]) == (key@, v@),
                None => forall|i: int| 0 <= i < self@.len() ==> (#[trigger] self@[i]).0 != key@,
            },
    {
        let k = key.to_owned();
        let mut i: usize = 0;
        while i < self.entries.len()
            invariant
                i <= self@.len(),
                k@ == key@,
                forall|j: int| 0 <= j < i ==> (#[trigger] self@[j]).0 != key@,
            decreases self@.len() - i,
        {
            assert(self@[i as int] == (self.entries@[i as int].0@, self.entries@[i as int].1@));
            if self.entries[i].0 == k {
                let v = self.entries[i].1.clone();
                return Some(v);
            }
            i += 1;
        }
        None
    }

    pub fn len(&self) -> (r: usize)
        ensures
            r == self@.len(),
    {
        self.entries.len()
    }
}

/// The first position at or after `pos` that holds `stop`, or the length.
fn find_byte(buf: &Vec<u8>, pos: usize, stop: u8) -> (r: usize)
    requires
        pos <= buf@.len(),
    ensures
        r == find_from(buf@, pos as int, stop),
        pos <= r <= buf@.len(),
{
    let mut i: usize = pos;
    while i < buf.len() && buf[i] != stop
        invariant
            pos <= i <= buf@.len(),
            find_from(buf@, pos as int, stop) == find_from(buf@, i as int, stop),
        decreases buf@.len() - i,
    {
        i += 1;
    }
    i
}

/// The bytes of `buf` from `from` up to `to`.
fn slice_of(buf: &Vec<u8>, from: usize, to: usize) -> (r: Vec<u8>)
    requires
        from <= to <= buf@.len(),
    ensures
        r@ == buf@.subrange(from as int, to as int),
{
    let mut r: Vec<u8> = Vec::new();
    let mut i: usize = from;
    while i < to
        invariant
            from <= i <= to,
            to <= buf@.len(),
            r@ == buf@.subrange(from as int, i as int),
        decreases to - i,
    {
        r.push(buf[i]);
        i += 1;
        assert(r@ =~= buf@.subrange(from as int, i as int));
    }
    r
}

/// Parses an environment block into its variables. A key or a value that is
/// not valid UTF-8 drops its record; a later record for a key replaces the
/// value of an earlier one.
pub fn parse_environment(buf: &Vec<u8>) -> (r: Environment)
    ensures
        r.wf(),
        r@ == unique_fold(env_records(buf@, 0)),
{
    let mut env = Environment { entries: Vec::new() };
    let mut pos: usize = 0;
    let ghost seen: Seq<(Seq<char>, Seq<char>)> = Seq::empty();
    assert(env@ =~= Seq::<(Seq<char>, Seq<char>)>::empty());
    assert(seen + env_records(buf@, 0) =~= env_records(buf@, 0));
    while pos < buf.len()
        invariant
            pos <= buf@.len(),
            env.wf(),
            env@ == unique_fold(seen),
            env_records(buf@, 0) == seen + env_records(buf@, pos as int),
        decreases buf@.len() - pos,
    {
        let ghost old_pos = pos as int;
        let k = find_byte(buf, pos, 61u8);
        let p1: usize = if k < buf.len() { k + 1 } else { k };
        match utf8_decode(slice_of(buf, pos, k)) {
            Err(_) => {
                pos = p1;
            },
            Ok(key) => {
                let z = find_byte(buf, p1, 0u8);
                let p2: usize = if z < buf.len() { z + 1 } else { z };
                match utf8_decode(slice_of(buf, p1, z)) {
                    Err(_) => {
                        pos = p2;
                    },
                    Ok(val) => {
                        let ghost entry = (key@, val@);
                        env.insert(key, val);
                        proof {
                            assert(seen.push(entry).drop_last() =~= seen);
                            let tail = env_records(buf@, p2 as int);
                            assert(seen + (seq![entry] + tail) =~= seen.push(entry) + tail);
                            seen = seen.push(entry);
                        }
                        pos = p2;
                    },
                }
            },
        }
    }
    assert(seen + env_records(buf@, pos as int) =~= seen);
    env
}

} // verus!
