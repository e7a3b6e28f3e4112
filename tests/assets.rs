use walkoflife::assets::{get_family_po_vert_offsets, ExtractError, MeshTable};
use walkoflife::channel::{MemError, MemoryImage, Target};

const BASE: usize = 0x10000;
const SIZE: usize = 0x4000;
const FAMILY: usize = BASE + 0x10;
const TABLE: usize = BASE + 0x100;
const FIRST: usize = BASE + 0x200;

fn put_u32(bytes: &mut Vec<u8>, at: usize, v: usize) {
    let off = at - BASE;
    bytes[off..off + 4].copy_from_slice(&(v as u32).to_le_bytes());
}

fn put_i16(bytes: &mut Vec<u8>, at: usize, v: i16) {
    let off = at - BASE;
    bytes[off..off + 2].copy_from_slice(&v.to_le_bytes());
}

/// A family of `n` records; record `i` has a mesh with `i + 1` vertices whose
/// coordinates are the numbers `100 * i + k`.
fn family(n: usize) -> Vec<u8> {
    let mut b = vec![0u8; SIZE];
    put_u32(&mut b, FAMILY + 0x1C, TABLE);
    put_u32(&mut b, TABLE + 4, FIRST);
    put_u32(&mut b, TABLE + 0xC, n);
    for i in 0..n {
        let entry = FIRST + 0x14 * i;
        let area = BASE + 0x1000 + 0x400 * i;
        let (link, visualset, mesh_link, mesh, verts) =
            (area, area + 0x20, area + 0x60, area + 0x80, area + 0x100);
        put_u32(&mut b, entry + 4, link);
        put_u32(&mut b, link, visualset);
        put_i16(&mut b, visualset + 4, 1);
        put_i16(&mut b, visualset + 6, 0);
        put_u32(&mut b, visualset + 0xC, mesh_link);
        put_u32(&mut b, mesh_link, mesh);
        put_u32(&mut b, mesh, verts);
        put_i16(&mut b, mesh + 0x2C, (i + 1) as i16);
        for k in 0..3 * (i + 1) {
            put_u32(&mut b, verts + 4 * k, 100 * i + k);
        }
    }
    b
}

fn verts_of(i: usize) -> usize {
    BASE + 0x1000 + 0x400 * i + 0x100
}

fn image(bytes: Vec<u8>) -> Target {
    Target::Image(MemoryImage { base: BASE, bytes })
}

fn addresses(t: &MeshTable) -> Vec<usize> {
    t.entries.iter().map(|e| e.0).collect()
}

#[test]
fn every_record_yields_its_mesh() {
    let t = image(family(3));
    let meshes = get_family_po_vert_offsets(&t, FAMILY, false, &vec![]).unwrap();
    assert_eq!(addresses(&meshes), vec![verts_of(0), verts_of(1), verts_of(2)]);
    assert_eq!(meshes.get(verts_of(0)), Some(vec![0, 1, 2]));
    assert_eq!(meshes.get(verts_of(1)), Some(vec![100, 101, 102, 103, 104, 105]));
    assert_eq!(meshes.get(verts_of(2)).map(|v| v.len()), Some(9));
}

#[test]
fn listed_records_are_skipped() {
    let t = image(family(3));
    let meshes = get_family_po_vert_offsets(&t, FAMILY, false, &vec![1]).unwrap();
    assert_eq!(addresses(&meshes), vec![verts_of(0), verts_of(2)]);
}

#[test]
fn only_listed_records_are_kept() {
    let t = image(family(3));
    let meshes = get_family_po_vert_offsets(&t, FAMILY, true, &vec![1]).unwrap();
    assert_eq!(addresses(&meshes), vec![verts_of(1)]);
}

#[test]
fn a_record_without_a_mesh_is_left_out() {
    let mut b = family(3);
    // Record 0 has a visual of another kind; record 2's link leads nowhere.
    put_i16(&mut b, BASE + 0x1000 + 0x20 + 6, 1);
    put_u32(&mut b, FIRST + 0x14 * 2 + 4, 0x10);
    let t = image(b);
    let meshes = get_family_po_vert_offsets(&t, FAMILY, false, &vec![]).unwrap();
    assert_eq!(addresses(&meshes), vec![verts_of(1)]);
}

#[test]
fn shared_vertex_buffers_are_grouped() {
    let mut b = family(2);
    // Record 1's mesh uses record 0's vertex buffer.
    put_u32(&mut b, BASE + 0x1000 + 0x400 + 0x80, verts_of(0));
    let t = image(b);
    let meshes = get_family_po_vert_offsets(&t, FAMILY, false, &vec![]).unwrap();
    assert_eq!(meshes.len(), 1);
    assert_eq!(meshes.get(verts_of(0)), Some(vec![0, 1, 2, 0, 0, 0]));
}

#[test]
fn an_unreadable_table_fails() {
    let t = image(family(1));
    assert!(matches!(
        get_family_po_vert_offsets(&t, 0x20, false, &vec![]),
        Err(ExtractError::Table(MemError::Unmapped(_)))
    ));
    let mut b = family(1);
    put_u32(&mut b, FAMILY + 0x1C, 0x40);
    let t = image(b);
    assert!(matches!(
        get_family_po_vert_offsets(&t, FAMILY, false, &vec![]),
        Err(ExtractError::Header(_))
    ));
}

#[test]
fn an_unreadable_vertex_count_fails() {
    let mut b = family(2);
    // Record 1's mesh lies at the very end of the image.
    put_u32(&mut b, BASE + 0x1000 + 0x400 + 0x60, BASE + SIZE - 0x10);
    let t = image(b);
    assert!(matches!(
        get_family_po_vert_offsets(&t, FAMILY, false, &vec![]),
        Err(ExtractError::VertexCount(_))
    ));
}

#[test]
fn a_negative_vertex_count_fails() {
    let mut b = family(1);
    put_i16(&mut b, BASE + 0x1000 + 0x80 + 0x2C, -2);
    let t = image(b);
    assert!(matches!(
        get_family_po_vert_offsets(&t, FAMILY, false, &vec![]),
        Err(ExtractError::NegativeVertexCount(-2))
    ));
}

#[test]
fn unreadable_vertices_fail() {
    let mut b = family(1);
    put_u32(&mut b, BASE + 0x1000 + 0x80, 0x30);
    let t = image(b);
    assert!(matches!(
        get_family_po_vert_offsets(&t, FAMILY, false, &vec![]),
        Err(ExtractError::Vertices(MemError::Unmapped(0x30)))
    ));
}
