//! Pointer paths into the engine's own structures: level name, name tables,
//! minds, AI models, behaviours and designer variables.
use vstd::prelude::*;

use crate::channel::{decode_u32, le_u32, read_exact, MemError, MemoryImage, Target};
use crate::hierarchy::{field_path, resolve_field};
use crate::pointer::{get_pointer_path, resolve_spec};
use crate::text::{read_string, text_of};

verus! {

/// Where the engine keeps the name of the current level.
pub const OFF_LEVEL_NAME: usize = 0x50039F;

/// Where the engine keeps the headers of its three name tables.
pub const OFF_OBJECT_TYPES: usize = 0x5013E0;

/// The longest level name read.
pub const LEVEL_NAME_BYTES: usize = 16;

/// The longest entry of a name table read.
pub const TABLE_NAME_BYTES: usize = 64;

/// Reads the name of the level that is open.
pub fn get_current_level_name(target: &Target) -> (r: Result<String, MemError>)
    ensures
        *target matches Target::Image(img) ==> match img.read_spec(OFF_LEVEL_NAME as int, 1, LEVEL_NAME_BYTES as int) {
            Ok(b) => r matches Ok(s) && s@ == text_of(b),
            Err(e) => r matches Err(e2) && e2 == e,
        },
{
    read_string(target, OFF_LEVEL_NAME, LEVEL_NAME_BYTES)
}

/// Reads the index of the family at `off_family` in the hierarchy.
pub fn get_family_index(target: &Target, off_family: usize) -> (r: Result<usize, MemError>)
    ensures
        *target matches Target::Image(img) ==> r == field_path(img, off_family, 0xC, Seq::empty()),
{
    let none: Vec<usize> = Vec::new();
    resolve_field(target, off_family, 0xC, &none)
}

/// The mind of the super-object at `super_object`.
pub open spec fn mind_spec(img: MemoryImage, super_object: usize) -> Result<usize, MemError> {
    field_path(img, super_object, 4, seq![0xCusize, 0usize])
}

/// The path `field` bytes into the node at the address in `r`, or the failure in `r`.
pub open spec fn then_path(img: MemoryImage, r: Result<usize, MemError>, field: usize, offsets: Seq<usize>) -> Result<usize, MemError> {
    match r {
        Ok(a) => field_path(img, a, field, offsets),
        Err(e) => Err(e),
    }
}

/// `r` moved on by `k` bytes.
pub open spec fn plus(r: Result<usize, MemError>, k: usize) -> Result<usize, MemError> {
    match r {
        Ok(a) => if a + k > usize::MAX {
            Err(MemError::Overflow)
        } else {
            Ok((a + k) as usize)
        },
        Err(e) => Err(e),
    }
}

fn offsets2(a: usize, b: usize) -> (r: Vec<usize>)
    ensures
        r@ == seq![a, b],
{
    let mut v: Vec<usize> = Vec::new();
    v.push(a);
    v.push(b);
    assert(v@ =~= seq![a, b]);
    v
}

fn offsets1(a: usize) -> (r: Vec<usize>)
    ensures
        r@ == seq![a],
{
    let mut v: Vec<usize> = Vec::new();
    v.push(a);
    assert(v@ =~= seq![a]);
    v
}

fn moved(r: Result<usize, MemError>, k: usize) -> (o: Result<usize, MemError>)
    ensures
        o == plus(r, k),
{
    match r {
        Ok(a) => if a > usize::MAX - k {
            Err(MemError::Overflow)
        } else {
            Ok(a + k)
        },
        Err(e) => Err(e),
    }
}

/// Reads the address of the mind of the super-object at `super_object`.
pub fn get_mind(target: &Target, super_object: usize) -> (r: Result<usize, MemError>)
    ensures
        *target matches Target::Image(img) ==> r == mind_spec(img, super_object),
{
    resolve_field(target, super_object, 4, &offsets2(0xC, 0))
}

/// Reads the index of the normal behaviour that the super-object at
/// `super_object` is running.
pub fn get_active_normal_behaviour(target: &Target, super_object: usize) -> (r: Result<usize, MemError>)
    ensures
        *target matches Target::Image(img) ==> r == then_path(img, mind_spec(img, super_object), 4, seq![8usize]),
{
    let mind = get_mind(target, super_object)?;
    resolve_field(target, mind, 4, &offsets1(8))
}

/// Reads the address of the designer variable `offset` bytes into the
/// variable memory of the super-object at `super_object`.
pub fn get_dsg_var_ptr(target: &Target, super_object: usize, offset: usize) -> (r: Result<usize, MemError>)
    ensures
        *target matches Target::Image(img) ==> r == plus(
            then_path(img, mind_spec(img, super_object), 0xC, seq![8usize]),
            offset,
        ),
{
    let mind = get_mind(target, super_object)?;
    moved(resolve_field(target, mind, 0xC, &offsets1(8)), offset)
}

/// Reads the address of the custom bits of the super-object at `super_object`.
pub fn get_custom_bits_ptr(target: &Target, super_object: usize) -> (r: Result<usize, MemError>)
    ensures
        *target matches Target::Image(img) ==> r == plus(field_path(img, super_object, 4, seq![4usize]), 0x24),
{
    moved(resolve_field(target, super_object, 4, &offsets1(4)), 0x24)
}

/// Reads the address of the AI model of the super-object at `super_object`.
pub fn get_ai_model(target: &Target, super_object: usize) -> (r: Result<usize, MemError>)
    ensures
        *target matches Target::Image(img) ==> r == then_path(img, mind_spec(img, super_object), 0, Seq::empty()),
{
    let mind = get_mind(target, super_object)?;
    resolve_field(target, mind, 0, &Vec::new())
}

/// The list of normal behaviours of the AI model of the super-object at `super_object`.
pub open spec fn behaviours_ptr_spec(img: MemoryImage, super_object: usize) -> Result<usize, MemError> {
    then_path(img, then_path(img, mind_spec(img, super_object), 0, Seq::empty()), 0, Seq::empty())
}

/// Reads the address of the list of normal behaviours of the AI model of the
/// super-object at `super_object`.
pub fn get_ai_model_normal_behaviours_ptr(target: &Target, super_object: usize) -> (r: Result<usize, MemError>)
    ensures
        *target matches Target::Image(img) ==> r == behaviours_ptr_spec(img, super_object),
{
    let ai_model = get_ai_model(target, super_object)?;
    resolve_field(target, ai_model, 0, &Vec::new())
}

/// The addresses of the `n` entries of 12 bytes each from `first`.
pub open spec fn entry_addresses(first: usize, n: usize) -> Seq<usize> {
    Seq::new(n as nat, |i: int| (first + 12 * i) as usize)
}

/// The addresses of the normal behaviours of the AI model of the
/// super-object at `super_object`.
pub open spec fn behaviours_spec(img: MemoryImage, super_object: usize) -> Result<Seq<usize>, MemError> {
    match behaviours_ptr_spec(img, super_object) {
        Err(e) => Err(e),
        Ok(list) => match img.exact_spec(list as int, 4, 2) {
            Err(e) => Err(e),
            Ok(b) => {
                let first = le_u32(b.subrange(0, 4)) as usize;
                let n = le_u32(b.subrange(4, 8)) as usize;
                if first + 12 * n > usize::MAX {
                    Err(MemError::Overflow)
                } else {
                    Ok(entry_addresses(first, n))
                }
            },
        },
    }
}

/// Reads the addresses of the normal behaviours of the AI model of the
/// super-object at `super_object`: a list of entries of 12 bytes each.
pub fn get_ai_model_normal_behaviours_list(target: &Target, super_object: usize) -> (r: Result<Vec<usize>, MemError>)
    ensures
        *target matches Target::Image(img) ==> match behaviours_spec(img, super_object) {
            Ok(s) => r matches Ok(v) && v@ == s,
            Err(e) => r matches Err(e2) && e2 == e,
        },
{
    let list = get_ai_model_normal_behaviours_ptr(target, super_object)?;
    let b = read_exact(target, list, 4, 2)?;
    let first: usize = decode_u32(&b, 0) as usize;
    let n: usize = decode_u32(&b, 4) as usize;
    if n > (usize::MAX - first) / 12 {
        assert(first + 12 * n > usize::MAX) by (nonlinear_arith)
            requires n > (usize::MAX - first) / 12, first <= usize::MAX;
        return Err(MemError::Overflow);
    }
    assert(first + 12 * n <= usize::MAX) by (nonlinear_arith)
        requires n <= (usize::MAX - first) / 12, first <= usize::MAX;
    let mut r: Vec<usize> = Vec::new();
    let mut i: usize = 0;
    while i < n
        invariant
            i <= n,
            first + 12 * n <= usize::MAX,
            r@ =~= entry_addresses(first, n).take(i as int),
        decreases n - i,
    {
        assert(12 * i <= 12 * n) by (nonlinear_arith)
            requires i <= n;
        r.push(first + 12 * i);
        i += 1;
        assert(r@ =~= entry_addresses(first, n).take(i as int));
    }
    Ok(r)
}

/// The name of the name-table node at `node`: the text its name pointer
/// leads to, or nothing where a read fails.
pub open spec fn table_name_spec(img: MemoryImage, node: usize) -> Seq<char> {
    match field_path(img, node, 0xC, Seq::empty()) {
        Err(_) => Seq::empty(),
        Ok(a) => match img.read_spec(a as int, 1, TABLE_NAME_BYTES as int) {
            Ok(b) => text_of(b),
            Err(_) => Seq::empty(),
        },
    }
}

/// The node after the name-table node at `node`; where the link cannot be
/// read or is null, the same node again.
pub open spec fn table_next_spec(img: MemoryImage, node: usize) -> usize {
    match resolve_spec(img, node, Seq::empty()) {
        Ok(a) => if a > 0 { a } else { node },
        Err(_) => node,
    }
}

/// The names of `n` name-table nodes from `node` on.
pub open spec fn names_spec(img: MemoryImage, node: usize, n: nat) -> Seq<Seq<char>>
    decreases n,
{
    if n == 0 {
        Seq::empty()
    } else {
        seq![table_name_spec(img, node)] + names_spec(img, table_next_spec(img, node), (n - 1) as nat)
    }
}

/// The text views of a list of strings.
pub open spec fn texts(v: Seq<String>) -> Seq<Seq<char>> {
    v.map_values(|s: String| s@)
}

/// Reads `num_names` names from the name table whose first node is at
/// `off_names_first`. There are always `num_names` of them: a name that
/// cannot be read is empty, and a link that cannot be followed repeats a node.
pub fn read_object_names_table(target: &Target, off_names_first: usize, num_names: usize) -> (r: Vec<String>)
    ensures
        r@.len() == num_names,
        *target matches Target::Image(img) ==> texts(r@) == names_spec(img, off_names_first, num_names as nat),
{
    let mut cur: usize = off_names_first;
    let mut ret: Vec<String> = Vec::new();
    let mut j: usize = 0;
    let none: Vec<usize> = Vec::new();
    while j < num_names
        invariant
            j <= num_names,
            ret@.len() == j,
            none@ == Seq::<usize>::empty(),
            *target matches Target::Image(img) ==> names_spec(img, off_names_first, num_names as nat)
                == texts(ret@) + names_spec(img, cur, (num_names - j) as nat),
        decreases num_names - j,
    {
        let next = get_pointer_path(target, cur, None);
        let name = match resolve_field(target, cur, 0xC, &none) {
            Ok(off_name) => match read_string(target, off_name, TABLE_NAME_BYTES) {
                Ok(s) => s,
                Err(_) => String::new(),
            },
            Err(_) => String::new(),
        };
        let ghost before = ret@;
        let ghost old_cur = cur;
        ret.push(name);
        if let Ok(n) = next {
            if n > 0 {
                cur = n;
            }
        }
        proof {
            assert(texts(ret@) =~= texts(before).push(name@));
            if let Target::Image(im) = target {
                let img = *im;
                assert(cur == table_next_spec(img, old_cur));
                let tail = names_spec(img, cur, (num_names - j - 1) as nat);
                assert(names_spec(img, old_cur, (num_names - j) as nat) == seq![name@] + tail);
                assert(texts(before) + (seq![name@] + tail) =~= texts(ret@) + tail);
            }
        }
        j += 1;
    }
    proof {
        if let Target::Image(im) = target {
            assert(texts(ret@) + Seq::empty() =~= texts(ret@));
        }
    }
    ret
}

/// The first node and the number of nodes of name table `k`.
pub open spec fn types_header_spec(img: MemoryImage, k: int) -> Result<(usize, usize), MemError> {
    match img.exact_spec(OFF_OBJECT_TYPES + 12 * k, 4, 3) {
        Err(e) => Err(e),
        Ok(b) => Ok((le_u32(b.subrange(0, 4)) as usize, le_u32(b.subrange(8, 12)) as usize)),
    }
}

/// The names of name table `k`.
pub open spec fn types_spec(img: MemoryImage, k: int) -> Result<Seq<Seq<char>>, MemError> {
    match types_header_spec(img, k) {
        Err(e) => Err(e),
        Ok((first, n)) => Ok(names_spec(img, first, n as nat)),
    }
}

/// Reads name table `k` from its header.
fn read_types_table(target: &Target, k: usize) -> (r: Result<Vec<String>, MemError>)
    requires
        k < 3,
    ensures
        *target matches Target::Image(img) ==> match types_spec(img, k as int) {
            Ok(s) => r matches Ok(v) && texts(v@) == s,
            Err(e) => r matches Err(e2) && e2 == e,
        },
{
    let b = read_exact(target, OFF_OBJECT_TYPES + 12 * k, 4, 3)?;
    let first: usize = decode_u32(&b, 0) as usize;
    let n: usize = decode_u32(&b, 8) as usize;
    Ok(read_object_names_table(target, first, n))
}

/// One of the three name tables of the hierarchy.
#[derive(Debug, Clone, Copy)]
pub enum NameTable {
    Family,
    AiModel,
    SuperObject,
}

/// A name table whose header could not be read, and why.
#[derive(Debug, Clone, Copy)]
pub struct TypesError {
    pub table: NameTable,
    pub cause: MemError,
}

fn table_failed(table: NameTable, r: Result<Vec<String>, MemError>) -> (o: Result<Vec<String>, TypesError>)
    ensures
        match r {
            Ok(v) => o == Ok::<Vec<String>, TypesError>(v),
            Err(e) => o == Err::<Vec<String>, TypesError>(TypesError { table, cause: e }),
        },
{
    match r {
        Ok(v) => Ok(v),
        Err(e) => Err(TypesError { table, cause: e }),
    }
}

/// Reads the three name tables of the hierarchy: family names, AI model
/// names and super-object names, in that order. The first table whose header
/// cannot be read is named in the error, and no later one is read.
pub fn read_object_types(target: &Target) -> (r: Result<[Vec<String>; 3], TypesError>)
    ensures
        *target matches Target::Image(img) ==> match (types_spec(img, 0), types_spec(img, 1), types_spec(img, 2)) {
            (Ok(a), Ok(b), Ok(c)) => r matches Ok(t) && texts(t[0]@) == a && texts(t[1]@) == b && texts(t[2]@) == c,
            (Err(e), _, _) => r == Err::<[Vec<String>; 3], TypesError>(
                (TypesError { table: NameTable::Family, cause: e }),
            ),
            (Ok(_), Err(e), _) => r == Err::<[Vec<String>; 3], TypesError>(
                (TypesError { table: NameTable::AiModel, cause: e }),
            ),
            (Ok(_), Ok(_), Err(e)) => r == Err::<[Vec<String>; 3], TypesError>(
                (TypesError { table: NameTable::SuperObject, cause: e }),
            ),
        },
{
    let families = table_failed(NameTable::Family, read_types_table(target, 0))?;
    let ai_models = table_failed(NameTable::AiModel, read_types_table(target, 1))?;
    let super_objects = table_failed(NameTable::SuperObject, read_types_table(target, 2))?;
    Ok([families, ai_models, super_objects])
}

} // verus!
