//! Mesh extraction: from a family's table of default objects, down through
//! each object's visual set to the vertex buffer of its first mesh.
use vstd::prelude::*;

use crate::channel::{
    decode_halves, decode_u32, decode_words, halves_of, le_u32, read_exact, read_prims, words_of,
    MemError, MemoryImage, Target,
};
use crate::pointer::{get_pointer_path, resolve_spec};

verus! {

/// Why an extraction failed as a whole: the layout read does not match the
/// memory, as opposed to an object that is merely absent.
#[derive(Debug, Clone, Copy)]
pub enum ExtractError {
    /// The family's table of default objects could not be found.
    Table(MemError),
    /// The table's first entry and entry count could not be read.
    Header(MemError),
    /// A mesh was found but its vertex count could not be read.
    VertexCount(MemError),
    /// A mesh was found with a negative vertex count.
    NegativeVertexCount(i16),
    /// A mesh was found but its vertices could not be read.
    Vertices(MemError),
}

/// Vertex buffers by address; every address appears once, in the order in
/// which it was first met. Coordinates are raw IEEE-754 single-precision bits.
pub struct MeshTable {
    pub entries: Vec<(usize, Vec<u32>)>,
}

impl View for MeshTable {
    type V = Seq<(usize, Seq<u32>)>;

    open spec fn view(&self) -> Seq<(usize, Seq<u32>)> {
        self.entries@.map_values(|e: (usize, Vec<u32>)| (e.0, e.1@))
    }
}

/// Stores `verts` under `addr`, replacing what an earlier entry held there.
pub open spec fn insert_mesh(t: Seq<(usize, Seq<u32>)>, addr: usize, verts: Seq<u32>) -> Seq<(usize, Seq<u32>)> {
    if exists|i: int| 0 <= i < t.len() && (#[trigger] t[i]).0 == addr {
        let i = choose|i: int| 0 <= i < t.len() && (#[trigger] t[i]).0 == addr;
        t.update(i, (addr, verts))
    } else {
        t.push((addr, verts))
    }
}

impl MeshTable {
    pub open spec fn wf(&self) -> bool {
        forall|i: int, j: int| 0 <= i < j < self@.len() ==> (#[trigger] self@[i]).0 != (#[trigger] self@[j]).0
    }

    pub fn new() -> (r: MeshTable)
        ensures
            r@ == Seq::<(usize, Seq<u32>)>::empty(),
            r.wf(),
    {
        MeshTable { entries: Vec::new() }
    }

    /// Stores `verts` under `addr`.
    pub fn insert(&mut self, addr: usize, verts: Vec<u32>)
        requires
            old(self).wf(),
        ensures
            final(self).wf(),
            final(self)@ == insert_mesh(old(self)@, addr, verts@),
    {
        let ghost pre = self@;
        let mut i: usize = 0;
        while i < self.entries.len()
            invariant
                self@ == pre,
                old(self).wf(),
                old(self)@ == pre,
                i <= pre.len(),
                forall|j: int| 0 <= j < i ==> (#[trigger] pre[j]).0 != addr,
            decreases pre.len() - i,
        {
            if self.entries[i].0 == addr {
                proof {
                    assert(pre[i as int] == (self.entries@[i as int].0, self.entries@[i as int].1@));
                    assert(pre[i as int].0 == addr);
                    let k = choose|k: int| 0 <= k < pre.len() && (#[trigger] pre[k]).0 == addr;
                    assert(k == i);
                }
                let ghost v = verts@;
                self.entries.set(i, (addr, verts));
                assert(self@ =~= pre.update(i as int, (addr, v)));
                return;
            }
            i += 1;
        }
        self.entries.push((addr, verts));
        assert(self@ =~= insert_mesh(pre, addr, verts@));
    }

    /// The vertices stored under `addr`, if any.
    pub fn get(&self, addr: usize) -> (r: Option<Vec<u32>>)
        requires
            self.wf(),
        ensures
            match r {
                Some(v) => exists|i: int| 0 <= i < self@.len() && (#[trigger] self@[i]) == (addr, v@),
                None => forall|i: int| 0 <= i < self@.len() ==> (#[trigger] self@[i]).0 != addr,
            },
    {
        let mut i: usize = 0;
        while i < self.entries.len()
            invariant
                i <= self@.len(),
                forall|j: int| 0 <= j < i ==> (#[trigger] self@[j]).0 != addr,
            decreases self@.len() - i,
        {
            if self.entries[i].0 == addr {
                let v = self.entries[i].1.clone();
                assert(v@ =~= self@[i as int].1);
                return Some(v);
            }
            i += 1;
        }
        None
    }

    pub fn len(&self) -> (r: usize)
        ensures
            r == self@.len(),
    {
        self.entries.len()
    }
}

/// Whether record `i` is processed: listed records are skipped, or, with
/// `keep_instead`, they are the only ones processed.
pub open spec fn selected(i: usize, keep_instead: bool, indices: Seq<usize>) -> bool {
    indices.contains(i) == keep_instead
}

/// `a + b`, or nothing where it does not fit in an address.
pub open spec fn add_spec(a: usize, b: usize) -> Option<usize> {
    if a + b > usize::MAX { None } else { Some((a + b) as usize) }
}

/// The vertices of the first mesh of a visual set at `visualset`: `Ok(None)`
/// where the set holds no mesh, an error where the mesh cannot be read.
pub open spec fn mesh_spec(img: MemoryImage, visualset: usize) -> Result<Option<(usize, Seq<u32>)>, ExtractError> {
    match add_spec(visualset, 0xC) {
        None => Ok(None),
        Some(mesh_path) => match resolve_spec(img, mesh_path, seq![0usize]) {
            Err(_) => Ok(None),
            Ok(mesh) => match resolve_spec(img, mesh, Seq::empty()) {
                Err(_) => Ok(None),
                Ok(verts) => match add_spec(mesh, 0x2C) {
                    None => Err(ExtractError::VertexCount(MemError::Overflow)),
                    Some(count_at) => match img.exact_spec(count_at as int, 2, 1) {
                        Err(e) => Err(ExtractError::VertexCount(e)),
                        Ok(b) => {
                            let n = halves_of(b)[0];
                            if n < 0 {
                                Err(ExtractError::NegativeVertexCount(n))
                            } else {
                                match img.read_spec(verts as int, 4, 3 * n) {
                                    Err(e) => Err(ExtractError::Vertices(e)),
                                    Ok(vb) => Ok(Some((verts, words_of(vb)))),
                                }
                            }
                        },
                    },
                },
            },
        },
    }
}

/// What record `i` of a table whose first entry is at `first` yields: nothing
/// where one of its hops fails or its visual holds no mesh, else its mesh.
pub open spec fn record_spec(img: MemoryImage, first: usize, i: usize) -> Result<Option<(usize, Seq<u32>)>, ExtractError> {
    if first + 0x14 * i + 4 > usize::MAX {
        Ok(None)
    } else {
        match resolve_spec(img, (first + 0x14 * i + 4) as usize, seq![0usize]) {
            Err(_) => Ok(None),
            Ok(visualset) => match add_spec(visualset, 4) {
                None => Ok(None),
                Some(kind_at) => match img.exact_spec(kind_at as int, 2, 2) {
                    Err(_) => Ok(None),
                    Ok(b) => if halves_of(b)[0] > 0 && halves_of(b)[1] == 0 {
                        mesh_spec(img, visualset)
                    } else {
                        Ok(None)
                    },
                },
            },
        }
    }
}

/// The meshes of the first `n` records, in order; the first hard failure ends it.
pub open spec fn collect_spec(img: MemoryImage, first: usize, keep_instead: bool, indices: Seq<usize>, n: nat) -> Result<Seq<(usize, Seq<u32>)>, ExtractError>
    decreases n,
{
    if n == 0 {
        Ok(Seq::empty())
    } else {
        match collect_spec(img, first, keep_instead, indices, (n - 1) as nat) {
            Err(e) => Err(e),
            Ok(t) => if !selected((n - 1) as usize, keep_instead, indices) {
                Ok(t)
            } else {
                match record_spec(img, first, (n - 1) as usize) {
                    Err(e) => Err(e),
                    Ok(None) => Ok(t),
                    Ok(Some(m)) => Ok(insert_mesh(t, m.0, m.1)),
                }
            },
        }
    }
}

/// The table of default objects of the family at `family`: its first entry
/// and its number of entries.
pub open spec fn table_spec(img: MemoryImage, family: usize) -> Result<(usize, usize), ExtractError> {
    match add_spec(family, 0x1C) {
        None => Err(ExtractError::Table(MemError::Overflow)),
        Some(at) => match resolve_spec(img, at, Seq::empty()) {
            Err(e) => Err(ExtractError::Table(e)),
            Ok(table) => match add_spec(table, 4) {
                None => Err(ExtractError::Header(MemError::Overflow)),
                Some(hdr) => match img.exact_spec(hdr as int, 4, 3) {
                    Err(e) => Err(ExtractError::Header(e)),
                    Ok(b) => Ok((le_u32(b.subrange(0, 4)) as usize, le_u32(b.subrange(8, 12)) as usize)),
                },
            },
        },
    }
}

/// The meshes of the family at `family`, over the records that `indices` and
/// `keep_instead` select.
pub open spec fn extract_spec(img: MemoryImage, family: usize, keep_instead: bool, indices: Seq<usize>) -> Result<Seq<(usize, Seq<u32>)>, ExtractError> {
    match table_spec(img, family) {
        Err(e) => Err(e),
        Ok((first, n)) => collect_spec(img, first, keep_instead, indices, n as nat),
    }
}

/// A view of a record's result with its vertices seen as a sequence.
pub open spec fn record_view(r: Result<Option<(usize, Vec<u32>)>, ExtractError>) -> Result<Option<(usize, Seq<u32>)>, ExtractError> {
    match r {
        Ok(Some((a, v))) => Ok(Some((a, v@))),
        Ok(None) => Ok(None),
        Err(e) => Err(e),
    }
}

fn checked_add(a: usize, b: usize) -> (r: Option<usize>)
    ensures
        r == add_spec(a, b),
{
    if a > usize::MAX - b {
        None
    } else {
        Some(a + b)
    }
}

/// Reads the first mesh of the visual set at `visualset`.
pub fn read_mesh(target: &Target, visualset: usize) -> (r: Result<Option<(usize, Vec<u32>)>, ExtractError>)
    ensures
        *target matches Target::Image(img) ==> record_view(r) == mesh_spec(img, visualset),
{
    let mesh_path = match checked_add(visualset, 0xC) {
        None => return Ok(None),
        Some(a) => a,
    };
    let zero: Vec<usize> = vec![0];
    assert(zero@ =~= seq![0usize]);
    let mesh = match get_pointer_path(target, mesh_path, Some(&zero)) {
        Err(_) => return Ok(None),
        Ok(a) => a,
    };
    let verts = match get_pointer_path(target, mesh, None) {
        Err(_) => return Ok(None),
        Ok(a) => a,
    };
    let count_at = match checked_add(mesh, 0x2C) {
        None => return Err(ExtractError::VertexCount(MemError::Overflow)),
        Some(a) => a,
    };
    let b = match read_exact(target, count_at, 2, 1) {
        Err(e) => return Err(ExtractError::VertexCount(e)),
        Ok(b) => b,
    };
    let h = decode_halves(&b);
    let n: i16 = h[0];
    if n < 0 {
        return Err(ExtractError::NegativeVertexCount(n));
    }
    let count: usize = 3 * (n as usize);
    let vb = match read_prims(target, verts, 4, count) {
        Err(e) => return Err(ExtractError::Vertices(e)),
        Ok(vb) => vb,
    };
    Ok(Some((verts, decode_words(&vb))))
}

/// Reads what record `i` of the table whose first entry is at `first` yields.
pub fn read_record(target: &Target, first: usize, i: usize) -> (r: Result<Option<(usize, Vec<u32>)>, ExtractError>)
    ensures
        *target matches Target::Image(img) ==> record_view(r) == record_spec(img, first, i),
{
    if i > (usize::MAX - 4) / 0x14 || first > usize::MAX - 4 - 0x14 * i {
        proof {
            if i > (usize::MAX - 4) / 0x14 {
                assert(0x14 * i > usize::MAX - 4) by (nonlinear_arith)
                    requires i > (usize::MAX - 4) / 0x14;
            }
        }
        return Ok(None);
    }
    let entry: usize = first + 0x14 * i + 4;
    let zero: Vec<usize> = vec![0];
    assert(zero@ =~= seq![0usize]);
    let visualset = match get_pointer_path(target, entry, Some(&zero)) {
        Err(_) => return Ok(None),
        Ok(a) => a,
    };
    let kind_at = match checked_add(visualset, 4) {
        None => return Ok(None),
        Some(a) => a,
    };
    let b = match read_exact(target, kind_at, 2, 2) {
        Err(_) => return Ok(None),
        Ok(b) => b,
    };
    let h = decode_halves(&b);
    if h[0] > 0 && h[1] == 0 {
        read_mesh(target, visualset)
    } else {
        Ok(None)
    }
}

/// Whether `indices` lists `i`.
pub fn lists(indices: &Vec<usize>, i: usize) -> (r: bool)
    ensures
        r == indices@.contains(i),
{
    let mut k: usize = 0;
    while k < indices.len()
        invariant
            k <= indices@.len(),
            forall|j: int| 0 <= j < k ==> indices@[j] != i,
        decreases indices@.len() - k,
    {
        if indices[k] == i {
            return true;
        }
        k += 1;
    }
    false
}

proof fn lemma_collect_err(img: MemoryImage, first: usize, keep_instead: bool, indices: Seq<usize>, k: nat, m: nat, e: ExtractError)
    requires
        k <= m,
        collect_spec(img, first, keep_instead, indices, k) == Err::<Seq<(usize, Seq<u32>)>, ExtractError>(e),
    ensures
        collect_spec(img, first, keep_instead, indices, m) == Err::<Seq<(usize, Seq<u32>)>, ExtractError>(e),
    decreases m - k,
{
    if k < m {
        lemma_collect_err(img, first, keep_instead, indices, k + 1, m, e);
    }
}

/// Reads the meshes of the family at `offset_family`, keyed by the address of
/// their vertex buffers. Records that `indices` lists are skipped, or, with
/// `keep_instead`, are the only ones read. A record whose hops fail is left
/// out; a table that cannot be read, or a mesh whose vertices cannot, fails
/// the whole extraction.
pub fn get_family_po_vert_offsets(target: &Target, offset_family: usize, keep_instead: bool, indices: &Vec<usize>) -> (r: Result<MeshTable, ExtractError>)
    ensures
        r matches Ok(t) ==> t.wf(),
        *target matches Target::Image(img) ==> match extract_spec(img, offset_family, keep_instead, indices@) {
            Ok(s) => r matches Ok(t) && t@ == s,
            Err(e) => r matches Err(e2) && e2 == e,
        },
{
    let at = match checked_add(offset_family, 0x1C) {
        None => return Err(ExtractError::Table(MemError::Overflow)),
        Some(a) => a,
    };
    let table = match get_pointer_path(target, at, None) {
        Err(e) => return Err(ExtractError::Table(e)),
        Ok(a) => a,
    };
    let hdr = match checked_add(table, 4) {
        None => return Err(ExtractError::Header(MemError::Overflow)),
        Some(a) => a,
    };
    let b = match read_exact(target, hdr, 4, 3) {
        Err(e) => return Err(ExtractError::Header(e)),
        Ok(b) => b,
    };
    let first: usize = decode_u32(&b, 0) as usize;
    let n: usize = decode_u32(&b, 8) as usize;
    let mut ret = MeshTable::new();
    let mut i: usize = 0;
    while i < n
        invariant
            i <= n,
            ret.wf(),
            *target matches Target::Image(img) ==> table_spec(img, offset_family) == Ok::<(usize, usize), ExtractError>((first, n))
                && collect_spec(img, first, keep_instead, indices@, i as nat) == Ok::<Seq<(usize, Seq<u32>)>, ExtractError>(ret@),
        decreases n - i,
    {
        if lists(indices, i) == keep_instead {
            match read_record(target, first, i) {
                Err(e) => {
                    proof {
                        if let Target::Image(im) = target {
                            lemma_collect_err(*im, first, keep_instead, indices@, (i + 1) as nat, n as nat, e);
                        }
                    }
                    return Err(e);
                },
                Ok(None) => {},
                Ok(Some((addr, verts))) => {
                    ret.insert(addr, verts);
                },
            }
        }
        i += 1;
    }
    Ok(ret)
}

/// A record that the filter leaves out is never looked at and adds nothing;
/// a record that it keeps is read, and adds its mesh or ends the extraction
/// with its error. With the one index `1`, the filter leaves out record 1
/// alone, or, with `keep_instead`, keeps record 1 alone.
pub proof fn lemma_filtered_records(img: MemoryImage, first: usize, keep_instead: bool, indices: Seq<usize>, i: usize)
    ensures
        !selected(i, keep_instead, indices) ==> collect_spec(img, first, keep_instead, indices, (i + 1) as nat)
            == collect_spec(img, first, keep_instead, indices, i as nat),
        selected(i, keep_instead, indices) ==> collect_spec(img, first, keep_instead, indices, (i + 1) as nat)
            == match collect_spec(img, first, keep_instead, indices, i as nat) {
            Err(e) => Err(e),
            Ok(t) => match record_spec(img, first, i) {
                Err(e) => Err(e),
                Ok(None) => Ok(t),
                Ok(Some(m)) => Ok(insert_mesh(t, m.0, m.1)),
            },
        },
        selected(i, false, seq![1usize]) == (i != 1),
        selected(i, true, seq![1usize]) == (i == 1),
{
    assert(seq![1usize][0] == 1);
    if i != 1 {
        assert(!seq![1usize].contains(i));
    }
}

} // verus!
