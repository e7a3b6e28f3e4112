use walkoflife::channel::{MemError, MemoryImage, Target};
use walkoflife::hierarchy::{
    get_active_super_object_ai_model_names, get_active_super_object_names, placeholder_name,
    walk_multi, walk_unique, ChainLayout,
};

const BASE: usize = 0x500000;
const SIZE: usize = 0x2000;

fn put_u32(bytes: &mut Vec<u8>, at: usize, v: usize) {
    let off = at - BASE;
    bytes[off..off + 4].copy_from_slice(&(v as u32).to_le_bytes());
}

/// A chain whose name index is the word at node + 4 and whose next node is
/// the word at node + 0x14.
fn simple_layout() -> ChainLayout {
    ChainLayout {
        root_base: BASE,
        root_offsets: vec![],
        name_field: 4,
        name_offsets: vec![],
        next_field: 0x14,
        next_offsets: vec![],
        max_nodes: usize::MAX,
    }
}

fn names(list: &[&str]) -> Vec<String> {
    list.iter().map(|s| s.to_string()).collect()
}

/// Three nodes at BASE + 0x100, + 0x200, + 0x300 with name indices 0, 1, 2.
fn three_nodes() -> Vec<u8> {
    let mut bytes = vec![0u8; SIZE];
    for (i, node) in [0x100usize, 0x200, 0x300].iter().enumerate() {
        put_u32(&mut bytes, BASE + node + 4, i);
        let next = if i < 2 { BASE + node + 0x100 } else { 0 };
        put_u32(&mut bytes, BASE + node + 0x14, next);
    }
    bytes
}

fn image(bytes: Vec<u8>) -> Target {
    Target::Image(MemoryImage { base: BASE, bytes })
}

#[test]
fn walk_collects_the_chain_in_order() {
    let t = image(three_nodes());
    let reg = walk_unique(&t, &simple_layout(), &names(&["A", "B", "C"]), BASE + 0x100).unwrap();
    let pairs: Vec<(String, usize)> = reg.entries.clone();
    assert_eq!(
        pairs,
        vec![
            ("A".to_string(), BASE + 0x100),
            ("B".to_string(), BASE + 0x200),
            ("C".to_string(), BASE + 0x300)
        ]
    );
    assert_eq!(reg.get("B"), Some(BASE + 0x200));
    assert_eq!(reg.get("D"), None);
}

#[test]
fn walk_stops_when_the_hop_to_the_middle_fails() {
    let mut bytes = three_nodes();
    // The first node's link now leads outside the image.
    put_u32(&mut bytes, BASE + 0x100 + 0x14, 0x10);
    let t = image(bytes);
    // The link itself is read, so the walk reaches 0x10 and its name read fails.
    let reg = walk_unique(&t, &simple_layout(), &names(&["A", "B", "C"]), BASE + 0x100).unwrap();
    assert_eq!(reg.entries, vec![("A".to_string(), BASE + 0x100)]);
}

#[test]
fn walk_keeps_the_middle_node_when_its_own_link_fails() {
    let mut layout = simple_layout();
    // Links are now one more hop: the word at node + 0x14 points at the next node's address.
    layout.next_offsets = vec![0];
    let mut bytes = three_nodes();
    put_u32(&mut bytes, BASE + 0x100 + 0x14, BASE + 0x180);
    put_u32(&mut bytes, BASE + 0x180, BASE + 0x200);
    // The middle node's link points outside the image.
    put_u32(&mut bytes, BASE + 0x200 + 0x14, 0x10);
    let t = image(bytes);
    let reg = walk_unique(&t, &layout, &names(&["A", "B", "C"]), BASE + 0x100).unwrap();
    assert_eq!(
        reg.entries,
        vec![("A".to_string(), BASE + 0x100), ("B".to_string(), BASE + 0x200)]
    );
}

#[test]
fn walk_from_a_null_root_uses_the_canonical_root() {
    let mut bytes = three_nodes();
    put_u32(&mut bytes, BASE, BASE + 0x200);
    let t = image(bytes);
    let reg = walk_unique(&t, &simple_layout(), &names(&["A", "B", "C"]), 0).unwrap();
    assert_eq!(reg.len(), 2);
    assert_eq!(reg.get("A"), None);
    assert_eq!(reg.get("C"), Some(BASE + 0x300));
}

#[test]
fn walk_fails_when_the_canonical_root_is_unreadable() {
    let mut layout = simple_layout();
    layout.root_base = 0x10;
    let t = image(three_nodes());
    assert!(matches!(
        walk_unique(&t, &layout, &names(&["A"]), 0),
        Err(MemError::Unmapped(0x10))
    ));
}

#[test]
fn walk_stops_after_the_most_nodes() {
    let mut layout = simple_layout();
    layout.max_nodes = 2;
    let t = image(three_nodes());
    let reg = walk_unique(&t, &layout, &names(&["A", "B", "C"]), BASE + 0x100).unwrap();
    assert_eq!(reg.len(), 2);
}

#[test]
fn last_writer_wins_in_the_unique_registry() {
    let mut bytes = three_nodes();
    put_u32(&mut bytes, BASE + 0x300 + 4, 0);
    let t = image(bytes);
    let reg = walk_unique(&t, &simple_layout(), &names(&["A", "B", "C"]), BASE + 0x100).unwrap();
    assert_eq!(
        reg.entries,
        vec![("A".to_string(), BASE + 0x300), ("B".to_string(), BASE + 0x200)]
    );
}

#[test]
fn multi_walk_keeps_every_address_in_order() {
    let mut bytes = three_nodes();
    put_u32(&mut bytes, BASE + 0x300 + 4, 0);
    let t = image(bytes);
    let reg = walk_multi(&t, &simple_layout(), &names(&["A", "B"]), BASE + 0x100).unwrap();
    assert_eq!(reg.get("A"), Some(vec![BASE + 0x100, BASE + 0x300]));
    assert_eq!(reg.get("B"), Some(vec![BASE + 0x200]));
    assert_eq!(reg.len(), 2);
}

#[test]
fn out_of_range_index_gets_a_placeholder_per_node() {
    let mut bytes = three_nodes();
    put_u32(&mut bytes, BASE + 0x100 + 4, 7);
    put_u32(&mut bytes, BASE + 0x200 + 4, 9);
    let t = image(bytes);
    let reg = walk_unique(&t, &simple_layout(), &names(&["A", "B", "C"]), BASE + 0x100).unwrap();
    // The longest table name has one character, so two underscores follow.
    let first = format!("unknown_{}__", BASE + 0x100);
    let second = format!("unknown_{}__", BASE + 0x200);
    assert_ne!(first, second);
    assert_eq!(reg.get(&first), Some(BASE + 0x100));
    assert_eq!(reg.get(&second), Some(BASE + 0x200));
    assert_eq!(reg.get("C"), Some(BASE + 0x300));
    assert_eq!(placeholder_name(&names(&["A", "BCD"]), 42), "unknown_42____");
    assert_eq!(placeholder_name(&vec![], 0), "unknown_0_");
}

#[test]
fn placeholder_never_matches_a_table_name() {
    let mut bytes = three_nodes();
    put_u32(&mut bytes, BASE + 0x100 + 4, 7);
    let t = image(bytes);
    let taken = format!("unknown_{}", BASE + 0x100);
    let table = vec![taken.clone(), "B".to_string(), "C".to_string()];
    let reg = walk_unique(&t, &simple_layout(), &table, BASE + 0x100).unwrap();
    assert_eq!(reg.len(), 3);
    assert_eq!(reg.get(&taken), None);
    let placeholder = placeholder_name(&table, BASE + 0x100);
    assert!(placeholder.starts_with(&taken));
    assert!(placeholder.len() > taken.len());
    assert_eq!(reg.get(&placeholder), Some(BASE + 0x100));
}

/// A super-object at `node` whose name index sits behind the path 4, `a`, `b`.
fn put_super_object(bytes: &mut Vec<u8>, node: usize, a: usize, b: usize, index: usize, next: usize) {
    put_u32(bytes, node + 4, node + 0x40);
    put_u32(bytes, node + 0x40 + a, node + 0x60);
    put_u32(bytes, node + 0x60 + b, index);
    put_u32(bytes, node + 0x14, next);
}

#[test]
fn super_objects_from_the_dynamic_world() {
    let mut bytes = vec![0u8; SIZE];
    let world = BASE + 0x1000;
    put_u32(&mut bytes, 0x500FD0, world);
    put_u32(&mut bytes, world + 8, BASE + 0x100);
    put_super_object(&mut bytes, BASE + 0x100, 4, 8, 1, BASE + 0x200);
    put_super_object(&mut bytes, BASE + 0x200, 4, 8, 0, 0);
    let t = image(bytes);
    let reg = get_active_super_object_names(&t, &names(&["global", "timer"]), 0).unwrap();
    assert_eq!(
        reg.entries,
        vec![("timer".to_string(), BASE + 0x100), ("global".to_string(), BASE + 0x200)]
    );
}

#[test]
fn ai_models_group_super_objects() {
    let mut bytes = vec![0u8; SIZE];
    put_super_object(&mut bytes, BASE + 0x100, 4, 4, 0, BASE + 0x200);
    put_super_object(&mut bytes, BASE + 0x200, 4, 4, 0, BASE + 0x300);
    put_super_object(&mut bytes, BASE + 0x300, 4, 4, 1, 0);
    let t = image(bytes);
    let reg = get_active_super_object_ai_model_names(&t, &names(&["guard", "door"]), BASE + 0x100).unwrap();
    assert_eq!(reg.get("guard"), Some(vec![BASE + 0x100, BASE + 0x200]));
    assert_eq!(reg.get("door"), Some(vec![BASE + 0x300]));
}
