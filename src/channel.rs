//! The remote memory channel: one scatter/gather transfer per request, against
//! a live process or against a synthetic image of one.
use vstd::prelude::*;

use nix::errno::Errno;
use nix::sys::uio::{process_vm_readv, process_vm_writev, RemoteIoVec};
use nix::unistd::Pid;
use std::io::{IoSlice, IoSliceMut};

verus! {

#[verifier::external_type_specification]
#[verifier::external_body]
pub struct ExPid(Pid);

#[verifier::external_type_specification]
#[verifier::external_body]
pub struct ExErrno(Errno);

/// Why a transfer did not deliver what was asked.
#[derive(Debug, Clone, Copy)]
pub enum MemError {
    /// The operating system refused the transfer.
    Os(Errno),
    /// The first byte asked for is not mapped in the image.
    Unmapped(usize),
    /// Fewer bytes came back than one value needs.
    Short { wanted: usize, got: usize },
    /// An address plus an offset does not fit in an address.
    Overflow,
    /// A transfer from a live process of more bytes than any buffer holds
    /// (more than `isize::MAX`).
    TooLarge(usize),
}

/// A contiguous run of bytes standing for the memory of a process: byte `i`
/// of `bytes` sits at address `base + i`; every other address is unmapped.
pub struct MemoryImage {
    pub base: usize,
    pub bytes: Vec<u8>,
}

/// The process whose memory is read: a live one, or a synthetic image.
pub enum Target {
    Live(Pid),
    Image(MemoryImage),
}

pub open spec fn min(a: int, b: int) -> int {
    if a <= b { a } else { b }
}

/// A byte buffer result seen through the view of its bytes.
pub open spec fn bytes_result(r: Result<Vec<u8>, MemError>) -> Result<Seq<u8>, MemError> {
    match r {
        Ok(v) => Ok(v@),
        Err(e) => Err(e),
    }
}

/// The longest prefix of `b` made of whole elements of `size` bytes.
pub open spec fn whole_elements(b: Seq<u8>, size: int) -> Seq<u8> {
    b.take(b.len() as int / size * size)
}

impl MemoryImage {
    pub open spec fn end(&self) -> int {
        self.base + self.bytes@.len()
    }

    pub open spec fn maps(&self, a: int) -> bool {
        self.base <= a < self.end()
    }

    /// What one transfer of `len` bytes from `address` copies: the mapped run
    /// that starts there, cut at `len`; nothing at all if `address` is unmapped.
    pub open spec fn transfer_spec(&self, address: int, len: int) -> Result<Seq<u8>, MemError> {
        if len == 0 {
            Ok(Seq::empty())
        } else if !self.maps(address) {
            Err(MemError::Unmapped(address as usize))
        } else {
            let off = address - self.base;
            Ok(self.bytes@.subrange(off, min(off + len, self.bytes@.len() as int)))
        }
    }

    /// Reading `count` elements of `size` bytes: whole elements of one transfer.
    pub open spec fn read_spec(&self, address: int, size: int, count: int) -> Result<Seq<u8>, MemError> {
        match self.transfer_spec(address, size * count) {
            Ok(b) => Ok(whole_elements(b, size)),
            Err(e) => Err(e),
        }
    }

    /// Copies the mapped run of at most `len` bytes that starts at `address`.
    pub fn transfer(&self, address: usize, len: usize) -> (r: Result<Vec<u8>, MemError>)
        ensures
            bytes_result(r) == self.transfer_spec(address as int, len as int),
    {
        if len == 0 {
            return Ok(Vec::new());
        }
        if address < self.base || address - self.base >= self.bytes.len() {
            return Err(MemError::Unmapped(address));
        }
        let off: usize = address - self.base;
        let avail: usize = self.bytes.len() - off;
        let n: usize = if len < avail { len } else { avail };
        let mut out: Vec<u8> = Vec::new();
        let mut i: usize = 0;
        while i < n
            invariant
                i <= n,
                off + n <= self.bytes@.len(),
                self.bytes@.len() <= usize::MAX,
                out@ == self.bytes@.subrange(off as int, off + i),
            decreases n - i,
        {
            out.push(self.bytes[off + i]);
            i += 1;
            assert(out@ =~= self.bytes@.subrange(off as int, off + i));
        }
        Ok(out)
    }
}

/// Relies on `nix::sys::uio::process_vm_readv`: one transfer of at most `len`
/// bytes from `address` in `pid`; the vector holds the bytes that were copied.
#[verifier::external_body]
fn vm_read(pid: Pid, address: usize, len: usize) -> (r: Result<Vec<u8>, Errno>)
    requires
        len <= isize::MAX,
    ensures
        r matches Ok(v) ==> v@.len() <= len,
{
    let mut buf = vec![0u8; len];
    let remote = [RemoteIoVec { base: address, len }];
    let n = process_vm_readv(pid, &mut [IoSliceMut::new(&mut buf)], &remote)?;
    buf.truncate(n);
    Ok(buf)
}

/// Relies on `nix::sys::uio::process_vm_writev`: one transfer of `data` to
/// `address` in `pid`; the count is the number of bytes copied.
#[verifier::external_body]
fn vm_write(pid: Pid, address: usize, data: &Vec<u8>) -> (r: Result<usize, Errno>)
    ensures
        r matches Ok(n) ==> n <= data@.len(),
{
    let remote = [RemoteIoVec { base: address, len: data.len() }];
    process_vm_writev(pid, &[IoSlice::new(data)], &remote)
}

/// Keeps the longest prefix of `b` made of whole elements of `size` bytes.
pub fn keep_whole_elements(b: Vec<u8>, size: usize) -> (r: Vec<u8>)
    requires
        size > 0,
    ensures
        r@ == whole_elements(b@, size as int),
        r@.len() as int % (size as int) == 0,
        r@.len() <= b@.len(),
        b@.len() - r@.len() < size,
{
    let mut b = b;
    let q: usize = b.len() / size;
    proof {
        vstd::arithmetic::div_mod::lemma_fundamental_div_mod(b@.len() as int, size as int);
        vstd::arithmetic::div_mod::lemma_mod_multiples_basic(q as int, size as int);
        assert(q * size == size * q) by (nonlinear_arith);
    }
    let n: usize = q * size;
    b.truncate(n);
    b
}

/// Reads `count` elements of `element_size` bytes from `address`.
///
/// A short transfer is a success: the buffer then holds the whole elements
/// that were copied, and never part of one.
pub fn read_prims(target: &Target, address: usize, element_size: usize, count: usize) -> (r: Result<Vec<u8>, MemError>)
    requires
        element_size > 0,
        element_size * count <= usize::MAX,
    ensures
        target matches Target::Image(img) ==> bytes_result(r) == img.read_spec(
            address as int,
            element_size as int,
            count as int,
        ),
        target matches Target::Live(_) ==> (r matches Err(e) ==> (e matches MemError::Os(_) || (
        element_size * count > isize::MAX && e == MemError::TooLarge(
            (element_size * count) as usize,
        )))),
        target matches Target::Live(_) && element_size * count > isize::MAX ==> r == Err::<
            Vec<u8>,
            MemError,
        >(MemError::TooLarge((element_size * count) as usize)),
        r matches Ok(v) ==> v@.len() as int % (element_size as int) == 0 && v@.len() <= element_size
            * count,
{
    let len: usize = element_size * count;
    let raw = match target {
        Target::Live(pid) => if len > isize::MAX as usize {
            return Err(MemError::TooLarge(len));
        } else {
            match vm_read(*pid, address, len) {
                Ok(v) => v,
                Err(e) => {
                    return Err(MemError::Os(e));
                },
            }
        },
        Target::Image(img) => match img.transfer(address, len) {
            Ok(v) => v,
            Err(e) => {
                return Err(e);
            },
        },
    };
    proof {
        if let Target::Image(img) = target {
            assert(raw@.len() <= len);
        }
    }
    Ok(keep_whole_elements(raw, element_size))
}

/// The first four bytes of `b`, read as a little-endian unsigned 32-bit integer.
pub open spec fn le_u32(b: Seq<u8>) -> u32 {
    (b[0] as int + 256 * b[1] + 65536 * b[2] + 16777216 * b[3]) as u32
}

/// The first two bytes of `b`, read as a little-endian two's-complement 16-bit integer.
pub open spec fn le_i16(b: Seq<u8>) -> i16 {
    let v = b[0] as int + 256 * b[1];
    if v >= 32768 { (v - 65536) as i16 } else { v as i16 }
}

/// `b` cut into consecutive 4-byte words.
pub open spec fn words_of(b: Seq<u8>) -> Seq<u32> {
    Seq::new((b.len() / 4) as nat, |i: int| le_u32(b.subrange(4 * i, 4 * i + 4)))
}

/// `b` cut into consecutive 2-byte signed integers.
pub open spec fn halves_of(b: Seq<u8>) -> Seq<i16> {
    Seq::new((b.len() / 2) as nat, |i: int| le_i16(b.subrange(2 * i, 2 * i + 2)))
}

impl MemoryImage {
    /// Reading exactly `count` elements: a short transfer is a failure.
    pub open spec fn exact_spec(&self, address: int, size: int, count: int) -> Result<Seq<u8>, MemError> {
        match self.read_spec(address, size, count) {
            Ok(b) => if b.len() == size * count {
                Ok(b)
            } else {
                Err(MemError::Short { wanted: (size * count) as usize, got: b.len() as usize })
            },
            Err(e) => Err(e),
        }
    }

    /// One address-width (32-bit) value read at `address`.
    pub open spec fn word_spec(&self, address: int) -> Result<u32, MemError> {
        match self.exact_spec(address, 4, 1) {
            Ok(b) => Ok(le_u32(b)),
            Err(e) => Err(e),
        }
    }

    /// The image after one transfer of `data` to `address`: the bytes of the
    /// mapped run that starts there are replaced, the others are kept.
    pub open spec fn written(&self, address: int, data: Seq<u8>) -> Seq<u8> {
        let off = address - self.base;
        let n = min(data.len() as int, self.bytes@.len() - off);
        if data.len() == 0 || !self.maps(address) {
            self.bytes@
        } else {
            Seq::new(
                self.bytes@.len(),
                |i: int|
                    if off <= i < off + n {
                        data[i - off]
                    } else {
                        self.bytes@[i]
                    },
            )
        }
    }

    /// Copies `data` over the mapped run that starts at `address`; returns how
    /// many bytes were copied.
    pub fn store(&mut self, address: usize, data: &Vec<u8>) -> (r: Result<usize, MemError>)
        ensures
            final(self).base == old(self).base,
            final(self).bytes@ == old(self).written(address as int, data@),
            match old(self).transfer_spec(address as int, data@.len() as int) {
                Ok(run) => r == Ok::<usize, MemError>(run.len() as usize),
                Err(e) => r == Err::<usize, MemError>(e),
            },
    {
        if data.len() == 0 {
            return Ok(0);
        }
        if address < self.base || address - self.base >= self.bytes.len() {
            return Err(MemError::Unmapped(address));
        }
        let off: usize = address - self.base;
        let avail: usize = self.bytes.len() - off;
        let n: usize = if data.len() < avail { data.len() } else { avail };
        let ghost before = self.bytes@;
        let mut i: usize = 0;
        while i < n
            invariant
                i <= n,
                n <= data@.len(),
                off + n <= self.bytes@.len(),
                self.bytes@.len() == before.len(),
                before.len() <= usize::MAX,
                self.base == old(self).base,
                before == old(self).bytes@,
                forall|j: int|
                    0 <= j < self.bytes@.len() ==> #[trigger] self.bytes@[j] == if off <= j < off + i {
                        data@[j - off]
                    } else {
                        before[j]
                    },
            decreases n - i,
        {
            self.bytes.set(off + i, data[i]);
            i += 1;
        }
        assert(self.bytes@ =~= old(self).written(address as int, data@));
        Ok(n)
    }
}

/// Writes `data` to `address` in one transfer and returns how many bytes
/// were copied, which may be fewer than `data` holds.
pub fn write_prims(target: &mut Target, address: usize, data: &Vec<u8>) -> (r: Result<usize, MemError>)
    ensures
        *old(target) matches Target::Image(img) ==> (*final(target) matches Target::Image(img2) && img2.base
            == img.base && img2.bytes@ == img.written(address as int, data@) && match img.transfer_spec(
            address as int,
            data@.len() as int,
        ) {
            Ok(run) => r == Ok::<usize, MemError>(run.len() as usize),
            Err(e) => r == Err::<usize, MemError>(e),
        }),
        *old(target) matches Target::Live(p) ==> (*final(target) matches Target::Live(q) && p == q),
        r matches Ok(n) ==> n <= data@.len(),
{
    match target {
        Target::Live(pid) => match vm_write(*pid, address, data) {
            Ok(n) => Ok(n),
            Err(e) => Err(MemError::Os(e)),
        },
        Target::Image(img) => img.store(address, data),
    }
}

/// Reads exactly `count` elements of `element_size` bytes from `address`; a
/// short transfer is reported as `MemError::Short`.
pub fn read_exact(target: &Target, address: usize, element_size: usize, count: usize) -> (r: Result<Vec<u8>, MemError>)
    requires
        element_size > 0,
        element_size * count <= usize::MAX,
    ensures
        target matches Target::Image(img) ==> bytes_result(r) == img.exact_spec(
            address as int,
            element_size as int,
            count as int,
        ),
        r matches Ok(v) ==> v@.len() == element_size * count,
{
    let v = read_prims(target, address, element_size, count)?;
    if v.len() != element_size * count {
        return Err(MemError::Short { wanted: element_size * count, got: v.len() });
    }
    Ok(v)
}

/// Decodes four little-endian bytes.
pub fn decode_u32(b: &Vec<u8>, at: usize) -> (r: u32)
    requires
        at + 4 <= b@.len(),
    ensures
        r == le_u32(b@.subrange(at as int, at + 4)),
{
    let _len: usize = b.len();
    let r: u32 = b[at] as u32 + 256 * (b[at + 1] as u32) + 65536 * (b[at + 2] as u32) + 16777216 * (
    b[at + 3] as u32);
    r
}

/// Decodes two little-endian bytes as a signed integer.
pub fn decode_i16(b: &Vec<u8>, at: usize) -> (r: i16)
    requires
        at + 2 <= b@.len(),
    ensures
        r == le_i16(b@.subrange(at as int, at + 2)),
{
    let _len: usize = b.len();
    let v: u32 = b[at] as u32 + 256 * (b[at + 1] as u32);
    if v >= 32768 {
        (v as i32 - 65536) as i16
    } else {
        v as i16
    }
}

/// Cuts `b` into little-endian 32-bit words; trailing bytes that make no
/// whole word are left out.
pub fn decode_words(b: &Vec<u8>) -> (r: Vec<u32>)
    ensures
        r@ == words_of(b@),
{
    let n: usize = b.len() / 4;
    let mut r: Vec<u32> = Vec::new();
    let mut i: usize = 0;
    while i < n
        invariant
            n == b@.len() / 4,
            b@.len() <= usize::MAX,
            i <= n,
            r@ =~= words_of(b@).take(i as int),
        decreases n - i,
    {
        r.push(decode_u32(b, 4 * i));
        i += 1;
        assert(r@ =~= words_of(b@).take(i as int));
    }
    r
}

/// Cuts `b` into little-endian signed 16-bit integers; a trailing odd byte is
/// left out.
pub fn decode_halves(b: &Vec<u8>) -> (r: Vec<i16>)
    ensures
        r@ == halves_of(b@),
{
    let n: usize = b.len() / 2;
    let mut r: Vec<i16> = Vec::new();
    let mut i: usize = 0;
    while i < n
        invariant
            n == b@.len() / 2,
            b@.len() <= usize::MAX,
            i <= n,
            r@ =~= halves_of(b@).take(i as int),
        decreases n - i,
    {
        r.push(decode_i16(b, 2 * i));
        i += 1;
        assert(r@ =~= halves_of(b@).take(i as int));
    }
    r
}

/// Reads one address-width (32-bit) value at `address`, zero-extended.
pub fn read_word(target: &Target, address: usize) -> (r: Result<u32, MemError>)
    ensures
        target matches Target::Image(img) ==> r == img.word_spec(address as int),
{
    let b = read_exact(target, address, 4, 1)?;
    Ok(decode_u32(&b, 0))
}

/// Where the whole requested range is mapped, a read returns exactly `count`
/// elements, and they are the bytes at that address.
pub proof fn lemma_read_mapped_is_exact(img: MemoryImage, address: int, size: int, count: int)
    requires
        size > 0,
        count >= 0,
        count > 0 ==> img.base <= address && address + size * count <= img.end(),
    ensures
        img.read_spec(address, size, count) matches Ok(b) && b.len() == size * count && forall|i: int|
            0 <= i < b.len() ==> #[trigger] b[i] == img.bytes@[address - img.base + i],
{
    vstd::arithmetic::div_mod::lemma_div_multiples_vanish(count, size);
    assert(size * count >= 0) by (nonlinear_arith)
        requires size > 0, count >= 0;
    if count > 0 {
        assert(size * count > 0) by (nonlinear_arith)
            requires size > 0, count > 0;
        let b = img.bytes@.subrange(address - img.base, address - img.base + size * count);
        assert(img.transfer_spec(address, size * count) == Ok::<Seq<u8>, MemError>(b));
        assert(b.len() == size * count);
        assert((size * count) / size == count);
        assert(count * size == size * count) by (nonlinear_arith);
        assert(b.len() as int / size * size == b.len());
        assert(whole_elements(b, size) =~= b);
    } else {
        assert(size * count == 0);
        assert(whole_elements(Seq::<u8>::empty(), size) =~= Seq::<u8>::empty());
    }
}

/// Where the mapped run at `address` is shorter than the request, a read
/// still succeeds: it returns the whole elements of the bytes that could be
/// copied, fewer than were asked for, and never part of an element.
pub proof fn lemma_read_short_is_whole_elements(img: MemoryImage, address: int, size: int, count: int)
    requires
        size > 0,
        count > 0,
        img.maps(address),
        img.end() - address < size * count,
    ensures
        img.read_spec(address, size, count) matches Ok(b) && b.len() == (img.end() - address) / size * size
            && b.len() < size * count && b.len() as int % size == 0 && b == img.bytes@.subrange(
            address - img.base,
            address - img.base + b.len(),
        ),
{
    let n = img.end() - address;
    let run = img.bytes@.subrange(address - img.base, img.bytes@.len() as int);
    assert(size * count > 0) by (nonlinear_arith)
        requires size > 0, count > 0;
    assert(img.transfer_spec(address, size * count) == Ok::<Seq<u8>, MemError>(run));
    assert(run.len() == n);
    vstd::arithmetic::div_mod::lemma_fundamental_div_mod(n, size);
    vstd::arithmetic::div_mod::lemma_mod_multiples_basic(n / size, size);
    assert(n / size * size == size * (n / size)) by (nonlinear_arith);
    assert(whole_elements(run, size) =~= img.bytes@.subrange(
        address - img.base,
        address - img.base + n / size * size,
    ));
}

} // verus!
