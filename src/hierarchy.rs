//! Walks a live sibling chain: each node is named through an index into a
//! name table, and the chain is followed until its null end or the first
//! failed read.
use vstd::prelude::*;
use vstd::string::{StrSliceExecFns, StringExecFns};

use crate::channel::{MemError, MemoryImage, Target};
use crate::pointer::{get_pointer_path, resolve_spec};
use crate::registry::{multi_fold, unique_fold, MultiRegistry, Registry};

verus! {

/// Where a sibling chain lives, as offsets relative to each node.
pub struct ChainLayout {
    /// The pointer path to the canonical root, used when no root is given.
    pub root_base: usize,
    pub root_offsets: Vec<usize>,
    /// From a node at `a`, the name index is the path at `a + name_field`.
    pub name_field: usize,
    pub name_offsets: Vec<usize>,
    /// From a node at `a`, the next sibling is the path at `a + next_field`.
    pub next_field: usize,
    pub next_offsets: Vec<usize>,
    /// The most nodes that one walk visits. A walk does not detect cycles;
    /// the standard layouts put this at `usize::MAX`.
    pub max_nodes: usize,
}

/// A chain layout seen as plain values.
pub struct ChainShape {
    pub root_base: usize,
    pub root_offsets: Seq<usize>,
    pub name_field: usize,
    pub name_offsets: Seq<usize>,
    pub next_field: usize,
    pub next_offsets: Seq<usize>,
    pub max_nodes: usize,
}

impl View for ChainLayout {
    type V = ChainShape;

    open spec fn view(&self) -> ChainShape {
        ChainShape {
            root_base: self.root_base,
            root_offsets: self.root_offsets@,
            name_field: self.name_field,
            name_offsets: self.name_offsets@,
            next_field: self.next_field,
            next_offsets: self.next_offsets@,
            max_nodes: self.max_nodes,
        }
    }
}

/// The chain of active super-objects: from the dynamic world, named by kind.
pub open spec fn super_object_shape() -> ChainShape {
    ChainShape {
        root_base: 0x500FD0,
        root_offsets: seq![8usize],
        name_field: 4,
        name_offsets: seq![4usize, 8usize],
        next_field: 0x14,
        next_offsets: Seq::empty(),
        max_nodes: usize::MAX,
    }
}

/// The chain of active super-objects: from the dynamic world, named by AI model.
pub open spec fn ai_model_shape() -> ChainShape {
    ChainShape { name_offsets: seq![4usize, 4usize], ..super_object_shape() }
}

/// The decimal digit `d`.
pub open spec fn digit(d: nat) -> char {
    if d == 0 { '0' }
    else if d == 1 { '1' }
    else if d == 2 { '2' }
    else if d == 3 { '3' }
    else if d == 4 { '4' }
    else if d == 5 { '5' }
    else if d == 6 { '6' }
    else if d == 7 { '7' }
    else if d == 8 { '8' }
    else { '9' }
}

/// `n` written in decimal, without leading zeros.
pub open spec fn decimal(n: nat) -> Seq<char>
    decreases n,
{
    if n < 10 {
        seq![digit(n)]
    } else {
        decimal(n / 10).push(digit(n % 10))
    }
}

/// The length of the longest name of `names`.
pub open spec fn longest_name(names: Seq<String>) -> nat
    decreases names.len(),
{
    if names.len() == 0 {
        0
    } else {
        let m = longest_name(names.drop_last());
        let l = names.last()@.len();
        if l > m { l } else { m }
    }
}

/// `n` underscores.
pub open spec fn underscores(n: nat) -> Seq<char> {
    Seq::new(n, |i: int| '_')
}

/// The name given to a node whose name index falls outside the table
/// `names`: its address in decimal after `unknown_`, then enough underscores
/// to make it longer than every name of the table.
pub open spec fn placeholder(names: Seq<String>, node: usize) -> Seq<char> {
    "unknown_"@ + decimal(node as nat) + underscores(longest_name(names) + 1)
}

/// The display name of the node at `node` with name index `index`.
pub open spec fn node_name(names: Seq<String>, index: usize, node: usize) -> Seq<char> {
    if index < names.len() {
        names[index as int]@
    } else {
        placeholder(names, node)
    }
}

/// The path that starts `field` bytes into the node at `node`.
pub open spec fn field_path(img: MemoryImage, node: usize, field: usize, offsets: Seq<usize>) -> Result<usize, MemError> {
    if node + field > usize::MAX {
        Err(MemError::Overflow)
    } else {
        resolve_spec(img, (node + field) as usize, offsets)
    }
}

/// The nodes met from `node` on, each with its display name, in chain order:
/// the walk ends at a null node, after `fuel` nodes, or at the first failed
/// path (a failed name index drops that node, a failed link keeps it).
pub open spec fn walk_spec(img: MemoryImage, layout: ChainShape, names: Seq<String>, node: usize, fuel: nat) -> Seq<(Seq<char>, usize)>
    decreases fuel,
{
    if fuel == 0 || node == 0 {
        Seq::empty()
    } else {
        match field_path(img, node, layout.name_field, layout.name_offsets) {
            Err(_) => Seq::empty(),
            Ok(ix) => seq![(node_name(names, ix, node), node)] + match field_path(
                img,
                node,
                layout.next_field,
                layout.next_offsets,
            ) {
                Err(_) => Seq::empty(),
                Ok(next) => walk_spec(img, layout, names, next, (fuel - 1) as nat),
            },
        }
    }
}

/// The first node of a walk: `root` itself, or the canonical root if `root` is null.
pub open spec fn root_spec(img: MemoryImage, layout: ChainShape, root: usize) -> Result<usize, MemError> {
    if root == 0 {
        resolve_spec(img, layout.root_base, layout.root_offsets)
    } else {
        Ok(root)
    }
}

/// Relies on `ToString::to_string` for `usize`, which writes it in decimal.
#[verifier::external_body]
fn decimal_text(n: usize) -> (r: String)
    ensures
        r@ == decimal(n as nat),
{
    n.to_string()
}

/// The length, in characters, of the longest name of `names`.
pub fn longest_name_len(names: &Vec<String>) -> (r: usize)
    ensures
        r == longest_name(names@),
{
    let mut m: usize = 0;
    let mut i: usize = 0;
    assert(names@.take(0) =~= Seq::<String>::empty());
    while i < names.len()
        invariant
            i <= names@.len(),
            m == longest_name(names@.take(i as int)),
        decreases names@.len() - i,
    {
        let l = names[i].as_str().unicode_len();
        assert(names@.take(i + 1).drop_last() =~= names@.take(i as int));
        if l > m {
            m = l;
        }
        i += 1;
    }
    assert(names@.take(i as int) =~= names@);
    m
}

/// The placeholder name of the node at `node`, for the name table `names`.
pub fn placeholder_name(names: &Vec<String>, node: usize) -> (r: String)
    ensures
        r@ == placeholder(names@, node),
{
    let mut s = String::from_str("unknown_");
    let digits = decimal_text(node);
    s.append(digits.as_str());
    let ghost head = s@;
    let k = longest_name_len(names);
    proof {
        reveal_strlit("_");
        assert(head + underscores(0) =~= head);
    }
    let mut j: usize = 0;
    while j < k
        invariant
            j <= k,
            "_"@ == seq!['_'],
            s@ == head + underscores(j as nat),
        decreases k - j,
    {
        s.append("_");
        assert(head + underscores((j + 1) as nat) =~= head + underscores(j as nat) + seq!['_']);
        j += 1;
    }
    s.append("_");
    assert(head + underscores((k + 1) as nat) =~= head + underscores(k as nat) + seq!['_']);
    s
}

/// The display name for name index `index` of the node at `node`. A
/// placeholder holds the node's address in decimal and is no name of the table.
pub fn name_for(names: &Vec<String>, index: usize, node: usize) -> (r: String)
    ensures
        r@ == node_name(names@, index, node),
        index >= names@.len() ==> forall|i: int| 0 <= i < names@.len() ==> (#[trigger] names@[i])@ != r@,
        index >= names@.len() ==> r@.subrange(8, 8 + decimal(node as nat).len() as int) == decimal(node as nat),
{
    if index < names.len() {
        names[index].clone()
    } else {
        proof {
            lemma_placeholder_unique(names@, node, node);
        }
        placeholder_name(names, node)
    }
}

/// Resolves the path `field` bytes into the node at `node`.
pub fn resolve_field(target: &Target, node: usize, field: usize, offsets: &Vec<usize>) -> (r: Result<usize, MemError>)
    ensures
        *target matches Target::Image(img) ==> r == field_path(img, node, field, offsets@),
{
    if node > usize::MAX - field {
        return Err(MemError::Overflow);
    }
    get_pointer_path(target, node + field, Some(offsets))
}

/// The first node of a walk: `root`, or the canonical root if `root` is null.
pub fn find_root(target: &Target, layout: &ChainLayout, root: usize) -> (r: Result<usize, MemError>)
    ensures
        *target matches Target::Image(img) ==> r == root_spec(img, layout@, root),
        root != 0 ==> r == Ok::<usize, MemError>(root),
{
    if root == 0 {
        get_pointer_path(target, layout.root_base, Some(&layout.root_offsets))
    } else {
        Ok(root)
    }
}

proof fn lemma_walk_step(img: MemoryImage, layout: ChainShape, names: Seq<String>, node: usize, fuel: nat)
    requires
        fuel > 0,
        node != 0,
    ensures
        walk_spec(img, layout, names, node, fuel) == match field_path(img, node, layout.name_field, layout.name_offsets) {
            Err(_) => Seq::empty(),
            Ok(ix) => seq![(node_name(names, ix, node), node)] + match field_path(
                img,
                node,
                layout.next_field,
                layout.next_offsets,
            ) {
                Err(_) => Seq::empty(),
                Ok(next) => walk_spec(img, layout, names, next, (fuel - 1) as nat),
            },
        },
{
}

/// Walks the sibling chain from `root` (the canonical root if `root` is
/// null) into a registry that keeps the last address met under each name.
/// Only a failure to find the canonical root is an error: a failed read in the
/// chain ends the walk with what was gathered.
pub fn walk_unique(target: &Target, layout: &ChainLayout, names: &Vec<String>, root: usize) -> (r: Result<Registry, MemError>)
    ensures
        r matches Ok(reg) ==> reg.wf(),
        root != 0 ==> r matches Ok(_),
        *target matches Target::Image(img) ==> match root_spec(img, layout@, root) {
            Ok(start) => r matches Ok(reg) && reg@ == unique_fold(
                walk_spec(img, layout@, names@, start, layout@.max_nodes as nat),
            ),
            Err(e) => r matches Err(e2) && e2 == e,
        },
{
    let start = find_root(target, layout, root)?;
    let mut reg = Registry::new();
    let mut node: usize = start;
    let mut left: usize = layout.max_nodes;
    let mut done = false;
    let ghost seen: Seq<(Seq<char>, usize)> = Seq::empty();
    proof {
        if let Target::Image(im) = target {
            let img = *im;
            assert(seen + walk_spec(img, layout@, names@, node, left as nat) =~= walk_spec(img, layout@, names@, node, left as nat));
        }
    }
    while !done && node != 0 && left > 0
        invariant
            reg.wf(),
            reg@ == unique_fold(seen),
            *target matches Target::Image(img) ==> walk_spec(img, layout@, names@, start, layout@.max_nodes as nat)
                == seen + if done {
                Seq::empty()
            } else {
                walk_spec(img, layout@, names@, node, left as nat)
            },
        decreases left,
    {
        let ghost rest = seen;
        proof {
            if let Target::Image(im) = target {
            let img = *im;
                lemma_walk_step(img, layout@, names@, node, left as nat);
            }
        }
        match resolve_field(target, node, layout.name_field, &layout.name_offsets) {
            Err(_) => {
                done = true;
                left = left - 1;
                assert(seen + Seq::empty() =~= seen);
            },
            Ok(ix) => {
                let name = name_for(names, ix, node);
                let ghost entry = (name@, node);
                reg.insert(name, node);
                proof {
                    assert(seen.push(entry).drop_last() =~= seen);
                    seen = seen.push(entry);
                }
                match resolve_field(target, node, layout.next_field, &layout.next_offsets) {
                    Err(_) => {
                        done = true;
                        assert(rest + (seq![entry] + Seq::empty()) =~= seen + Seq::empty());
                    },
                    Ok(next) => {
                        proof {
                            if let Target::Image(im) = target {
            let img = *im;
                                let tail = walk_spec(img, layout@, names@, next, (left - 1) as nat);
                                assert(rest + (seq![entry] + tail) =~= seen + tail);
                            }
                        }
                        node = next;
                    },
                }
                left = left - 1;
            },
        }
    }
    proof {
        if let Target::Image(im) = target {
            let img = *im;
            assert(seen + Seq::empty() =~= seen);
        }
    }
    Ok(reg)
}

/// Walks the sibling chain from `root` (the canonical root if `root` is
/// null) into a registry that keeps every address met under each name, in
/// chain order.
/// Only a failure to find the canonical root is an error: a failed read in the
/// chain ends the walk with what was gathered.
pub fn walk_multi(target: &Target, layout: &ChainLayout, names: &Vec<String>, root: usize) -> (r: Result<MultiRegistry, MemError>)
    ensures
        r matches Ok(reg) ==> reg.wf(),
        root != 0 ==> r matches Ok(_),
        *target matches Target::Image(img) ==> match root_spec(img, layout@, root) {
            Ok(start) => r matches Ok(reg) && reg@ == multi_fold(
                walk_spec(img, layout@, names@, start, layout@.max_nodes as nat),
            ),
            Err(e) => r matches Err(e2) && e2 == e,
        },
{
    let start = find_root(target, layout, root)?;
    let mut reg = MultiRegistry::new();
    let mut node: usize = start;
    let mut left: usize = layout.max_nodes;
    let mut done = false;
    let ghost seen: Seq<(Seq<char>, usize)> = Seq::empty();
    proof {
        if let Target::Image(im) = target {
            let img = *im;
            assert(seen + walk_spec(img, layout@, names@, node, left as nat) =~= walk_spec(img, layout@, names@, node, left as nat));
        }
    }
    while !done && node != 0 && left > 0
        invariant
            reg.wf(),
            reg@ == multi_fold(seen),
            *target matches Target::Image(img) ==> walk_spec(img, layout@, names@, start, layout@.max_nodes as nat)
                == seen + if done {
                Seq::empty()
            } else {
                walk_spec(img, layout@, names@, node, left as nat)
            },
        decreases left,
    {
        let ghost rest = seen;
        proof {
            if let Target::Image(im) = target {
            let img = *im;
                lemma_walk_step(img, layout@, names@, node, left as nat);
            }
        }
        match resolve_field(target, node, layout.name_field, &layout.name_offsets) {
            Err(_) => {
                done = true;
                left = left - 1;
                assert(seen + Seq::empty() =~= seen);
            },
            Ok(ix) => {
                let name = name_for(names, ix, node);
                let ghost entry = (name@, node);
                reg.insert(name, node);
                proof {
                    assert(seen.push(entry).drop_last() =~= seen);
                    seen = seen.push(entry);
                }
                match resolve_field(target, node, layout.next_field, &layout.next_offsets) {
                    Err(_) => {
                        done = true;
                        assert(rest + (seq![entry] + Seq::empty()) =~= seen + Seq::empty());
                    },
                    Ok(next) => {
                        proof {
                            if let Target::Image(im) = target {
            let img = *im;
                                let tail = walk_spec(img, layout@, names@, next, (left - 1) as nat);
                                assert(rest + (seq![entry] + tail) =~= seen + tail);
                            }
                        }
                        node = next;
                    },
                }
                left = left - 1;
            },
        }
    }
    proof {
        if let Target::Image(im) = target {
            let img = *im;
            assert(seen + Seq::empty() =~= seen);
        }
    }
    Ok(reg)
}

/// The standard chain of active super-objects, named by their own kind.
pub fn super_object_layout() -> (r: ChainLayout)
    ensures
        r@ == super_object_shape(),
{
    let mut root_offsets: Vec<usize> = Vec::new();
    root_offsets.push(8);
    let mut name_offsets: Vec<usize> = Vec::new();
    name_offsets.push(4);
    name_offsets.push(8);
    assert(root_offsets@ =~= seq![8usize]);
    assert(name_offsets@ =~= seq![4usize, 8usize]);
    let r = ChainLayout {
        root_base: 0x500FD0,
        root_offsets,
        name_field: 4,
        name_offsets,
        next_field: 0x14,
        next_offsets: Vec::new(),
        max_nodes: usize::MAX,
    };
    assert(r@.next_offsets =~= Seq::<usize>::empty());
    r
}

/// The standard chain of active super-objects, named by their AI model.
pub fn ai_model_layout() -> (r: ChainLayout)
    ensures
        r@ == ai_model_shape(),
{
    let mut root_offsets: Vec<usize> = Vec::new();
    root_offsets.push(8);
    let mut name_offsets: Vec<usize> = Vec::new();
    name_offsets.push(4);
    name_offsets.push(4);
    assert(root_offsets@ =~= seq![8usize]);
    assert(name_offsets@ =~= seq![4usize, 4usize]);
    let r = ChainLayout {
        root_base: 0x500FD0,
        root_offsets,
        name_field: 4,
        name_offsets,
        next_field: 0x14,
        next_offsets: Vec::new(),
        max_nodes: usize::MAX,
    };
    assert(r@.next_offsets =~= Seq::<usize>::empty());
    r
}

/// The names and addresses of the active super-objects from `super_object`
/// (the dynamic world if it is null), named through `object_names`.
pub fn get_active_super_object_names(target: &Target, object_names: &Vec<String>, super_object: usize) -> (r: Result<Registry, MemError>)
    ensures
        r matches Ok(reg) ==> reg.wf(),
        super_object != 0 ==> r matches Ok(_),
        *target matches Target::Image(img) ==> match root_spec(img, super_object_shape(), super_object) {
            Ok(start) => r matches Ok(reg) && reg@ == unique_fold(
                walk_spec(img, super_object_shape(), object_names@, start, usize::MAX as nat),
            ),
            Err(e) => r matches Err(e2) && e2 == e,
        },
{
    let layout = super_object_layout();
    walk_unique(target, &layout, object_names, super_object)
}

/// The AI model names of the active super-objects from `super_object` (the
/// dynamic world if it is null), each with every super-object that uses it.
pub fn get_active_super_object_ai_model_names(target: &Target, ai_model_names: &Vec<String>, super_object: usize) -> (r: Result<MultiRegistry, MemError>)
    ensures
        r matches Ok(reg) ==> reg.wf(),
        super_object != 0 ==> r matches Ok(_),
        *target matches Target::Image(img) ==> match root_spec(img, ai_model_shape(), super_object) {
            Ok(start) => r matches Ok(reg) && reg@ == multi_fold(
                walk_spec(img, ai_model_shape(), ai_model_names@, start, usize::MAX as nat),
            ),
            Err(e) => r matches Err(e2) && e2 == e,
        },
{
    let layout = ai_model_layout();
    walk_multi(target, &layout, ai_model_names, super_object)
}

proof fn lemma_decimal_len(n: nat)
    ensures
        decimal(n).len() >= 1,
        n >= 10 ==> decimal(n).len() >= 2,
    decreases n,
{
    if n >= 10 {
        lemma_decimal_len(n / 10);
    }
}

proof fn lemma_decimal_injective(a: nat, b: nat)
    requires
        decimal(a) == decimal(b),
    ensures
        a == b,
    decreases a,
{
    lemma_decimal_len(a);
    lemma_decimal_len(b);
    if a < 10 && b < 10 {
        assert(decimal(a)[0] == digit(a));
        assert(decimal(b)[0] == digit(b));
    } else if a >= 10 && b >= 10 {
        let da = decimal(a);
        assert(da.drop_last() =~= decimal(a / 10));
        assert(decimal(b).drop_last() =~= decimal(b / 10));
        assert(da.last() == digit(a % 10));
        assert(decimal(b).last() == digit(b % 10));
        lemma_decimal_injective(a / 10, b / 10);
    }
}

proof fn lemma_longest_name(names: Seq<String>)
    ensures
        forall|i: int| 0 <= i < names.len() ==> (#[trigger] names[i])@.len() <= longest_name(names),
    decreases names.len(),
{
    if names.len() > 0 {
        lemma_longest_name(names.drop_last());
        assert forall|i: int| 0 <= i < names.len() implies (#[trigger] names[i])@.len() <= longest_name(names) by {
            if i < names.len() - 1 {
                assert(names[i] == names.drop_last()[i]);
            }
        }
    }
}

/// A placeholder is no name of its table, holds the node's address in
/// decimal just after its eight-character `unknown_` head, and placeholders
/// of different nodes differ.
pub proof fn lemma_placeholder_unique(names: Seq<String>, a: usize, b: usize)
    ensures
        forall|i: int| 0 <= i < names.len() ==> (#[trigger] names[i])@ != placeholder(names, a),
        placeholder(names, a).subrange(8, 8 + decimal(a as nat).len() as int) == decimal(a as nat),
        a != b ==> placeholder(names, a) != placeholder(names, b),
{
    reveal_strlit("unknown_");
    let k = longest_name(names) + 1;
    lemma_longest_name(names);
    assert(placeholder(names, a).subrange(8, 8 + decimal(a as nat).len() as int) =~= decimal(a as nat));
    assert forall|i: int| 0 <= i < names.len() implies (#[trigger] names[i])@ != placeholder(names, a) by {
        assert(placeholder(names, a).len() > longest_name(names));
    }
    if placeholder(names, a) == placeholder(names, b) {
        let pa = placeholder(names, a);
        assert(pa.len() == 8 + decimal(a as nat).len() + k);
        assert(placeholder(names, b).len() == 8 + decimal(b as nat).len() + k);
        assert(decimal(a as nat).len() == decimal(b as nat).len());
        assert(pa.subrange(8, pa.len() - k) =~= decimal(a as nat));
        assert(placeholder(names, b).subrange(8, pa.len() - k) =~= decimal(b as nat));
        lemma_decimal_injective(a as nat, b as nat);
    }
}

} // verus!
