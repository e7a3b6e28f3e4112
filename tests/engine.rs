use walkoflife::channel::{MemError, MemoryImage, Target};
use walkoflife::discovery::{parse_pid_output, PidOutputError};
use walkoflife::engine::{
    get_active_normal_behaviour, get_ai_model, get_ai_model_normal_behaviours_list,
    get_ai_model_normal_behaviours_ptr, get_current_level_name, get_custom_bits_ptr,
    get_dsg_var_ptr, get_family_index, get_mind, read_object_names_table, read_object_types,
    NameTable,
};
use walkoflife::environ::parse_environment;

const BASE: usize = 0x500000;
const SIZE: usize = 0x3000;

fn put_u32(bytes: &mut Vec<u8>, at: usize, v: usize) {
    let off = at - BASE;
    bytes[off..off + 4].copy_from_slice(&(v as u32).to_le_bytes());
}

fn put_text(bytes: &mut Vec<u8>, at: usize, s: &[u8]) {
    let off = at - BASE;
    bytes[off..off + s.len()].copy_from_slice(s);
}

fn image(bytes: Vec<u8>) -> Target {
    Target::Image(MemoryImage { base: BASE, bytes })
}

const SO: usize = BASE + 0x100;
const MIND: usize = BASE + 0x200;
const AI: usize = BASE + 0x300;

/// A super-object whose mind, AI model and behaviours can all be reached.
fn super_object() -> Vec<u8> {
    let mut b = vec![0u8; SIZE];
    let engine_object = BASE + 0x400;
    let brain = BASE + 0x500;
    put_u32(&mut b, SO + 4, engine_object);
    put_u32(&mut b, engine_object + 0xC, brain);
    put_u32(&mut b, brain, MIND);
    put_u32(&mut b, MIND, AI);
    let intelligence = BASE + 0x600;
    put_u32(&mut b, MIND + 4, intelligence);
    put_u32(&mut b, intelligence + 8, 5);
    let dsg = BASE + 0x700;
    put_u32(&mut b, MIND + 0xC, dsg);
    put_u32(&mut b, dsg + 8, BASE + 0x800);
    let standard = BASE + 0x900;
    put_u32(&mut b, engine_object + 4, standard);
    let list = BASE + 0xA00;
    put_u32(&mut b, AI, list);
    put_u32(&mut b, list, BASE + 0xB00);
    put_u32(&mut b, list + 4, 3);
    b
}

#[test]
fn level_name_is_read_as_text() {
    let mut b = vec![0u8; SIZE];
    put_text(&mut b, 0x50039F, b"ly_10\0junk");
    assert_eq!(get_current_level_name(&image(b)).unwrap(), "ly_10");
    let t = Target::Image(MemoryImage { base: 0, bytes: vec![0; 4] });
    assert!(get_current_level_name(&t).is_err());
}

#[test]
fn family_index_is_one_read() {
    let mut b = vec![0u8; SIZE];
    put_u32(&mut b, BASE + 0x10 + 0xC, 12);
    assert_eq!(get_family_index(&image(b), BASE + 0x10).unwrap(), 12);
}

#[test]
fn mind_and_what_hangs_from_it() {
    let t = image(super_object());
    assert_eq!(get_mind(&t, SO).unwrap(), MIND);
    assert_eq!(get_active_normal_behaviour(&t, SO).unwrap(), 5);
    assert_eq!(get_dsg_var_ptr(&t, SO, 84).unwrap(), BASE + 0x800 + 84);
    assert_eq!(get_custom_bits_ptr(&t, SO).unwrap(), BASE + 0x900 + 0x24);
    assert_eq!(get_ai_model(&t, SO).unwrap(), AI);
    assert_eq!(get_ai_model_normal_behaviours_ptr(&t, SO).unwrap(), BASE + 0xA00);
    assert_eq!(
        get_ai_model_normal_behaviours_list(&t, SO).unwrap(),
        vec![BASE + 0xB00, BASE + 0xB0C, BASE + 0xB18]
    );
}

#[test]
fn a_missing_mind_is_an_error() {
    let t = image(super_object());
    assert!(matches!(get_mind(&t, BASE + 0x2F00), Err(MemError::Unmapped(_))));
    assert!(get_active_normal_behaviour(&t, BASE + 0x2F00).is_err());
    assert!(matches!(get_dsg_var_ptr(&t, SO, usize::MAX), Err(MemError::Overflow)));
}

/// A name table of nodes at BASE + 0x100 * (k + 1), each naming itself.
fn name_table(names: &[&[u8]]) -> Vec<u8> {
    let mut b = vec![0u8; SIZE];
    for (k, name) in names.iter().enumerate() {
        let node = BASE + 0x100 * (k + 1);
        let next = if k + 1 < names.len() { node + 0x100 } else { 0 };
        put_u32(&mut b, node, next);
        put_u32(&mut b, node + 0xC, node + 0x40);
        put_text(&mut b, node + 0x40, name);
    }
    b
}

#[test]
fn names_table_follows_its_links() {
    let t = image(name_table(&[b"rayman\0", b"globox\0", b"murfy\0"]));
    assert_eq!(read_object_names_table(&t, BASE + 0x100, 3), vec!["rayman", "globox", "murfy"]);
    // Past the last node the link is null, so the last node repeats.
    assert_eq!(read_object_names_table(&t, BASE + 0x300, 2), vec!["murfy", "murfy"]);
    // An unreadable node gives empty names.
    assert_eq!(read_object_names_table(&t, 0x10, 2), vec!["", ""]);
}

#[test]
fn object_types_reads_three_tables() {
    let mut b = name_table(&[b"fam\0", b"model\0", b"obj\0"]);
    for k in 0..3 {
        put_u32(&mut b, 0x5013E0 + 12 * k, BASE + 0x100 * (k + 1));
        put_u32(&mut b, 0x5013E0 + 12 * k + 8, 1);
    }
    let t = image(b);
    let types = read_object_types(&t).unwrap();
    assert_eq!(types[0], vec!["fam"]);
    assert_eq!(types[1], vec!["model"]);
    assert_eq!(types[2], vec!["obj"]);
    let t = image(vec![0u8; 0x100]);
    assert!(matches!(
        read_object_types(&t),
        Err(e) if matches!(e.table, NameTable::Family) && matches!(e.cause, MemError::Unmapped(_))
    ));
}

#[test]
fn object_types_names_the_table_that_failed() {
    // Only the first header is mapped: the image ends just after it.
    let mut b = vec![0u8; 0x13E0 + 12];
    put_u32(&mut b, 0x5013E0 + 8, 0);
    let t = image(b);
    assert!(matches!(
        read_object_types(&t),
        Err(e) if matches!(e.table, NameTable::AiModel) && matches!(e.cause, MemError::Unmapped(_))
    ));
}

#[test]
fn environment_records_are_split() {
    let env = parse_environment(&b"HOME=/root\0LANG=C\0HOME=/tmp\0".to_vec());
    assert_eq!(env.len(), 2);
    assert_eq!(env.get("HOME"), Some("/tmp".to_string()));
    assert_eq!(env.get("LANG"), Some("C".to_string()));
    assert_eq!(env.get("PATH"), None);
    let env = parse_environment(&b"EMPTY=\0LAST".to_vec());
    assert_eq!(env.get("EMPTY"), Some(String::new()));
    assert_eq!(env.get("LAST"), Some(String::new()));
}

#[test]
fn environment_drops_undecodable_parts() {
    let env = parse_environment(&vec![0xff, b'=', b'v', 0, b'K', b'=', b'x', 0]);
    // The bad key drops its record; scanning goes on just after its `=`, so
    // the next key runs from its value up to the following `=`.
    assert_eq!(env.len(), 1);
    assert_eq!(env.get("v\0K"), Some("x".to_string()));
    assert_eq!(env.get("K"), None);
}

#[test]
fn pid_is_the_first_line() {
    assert_eq!(parse_pid_output(b"1234\n".to_vec()), Ok(1234));
    assert_eq!(parse_pid_output(b"77\r\n88\n".to_vec()), Ok(77));
    assert_eq!(parse_pid_output(b"42".to_vec()), Ok(42));
    assert_eq!(parse_pid_output(Vec::new()), Err(PidOutputError::NoOutput));
    assert_eq!(parse_pid_output(b"\n".to_vec()), Err(PidOutputError::NotNumber));
    assert_eq!(parse_pid_output(b"abc\n".to_vec()), Err(PidOutputError::NotNumber));
    assert_eq!(parse_pid_output(b"99999999999\n".to_vec()), Err(PidOutputError::NotNumber));
    assert_eq!(parse_pid_output(vec![0xff, b'\n']), Err(PidOutputError::NotText));
}
