use nix::unistd::Pid;
use walkoflife::channel::{
    decode_words, keep_whole_elements, read_exact, read_prims, read_word, write_prims, MemError,
    MemoryImage, Target,
};
use walkoflife::pointer::get_pointer_path;
use walkoflife::text::read_string;

const BASE: usize = 0x1000;

fn image(bytes: Vec<u8>) -> Target {
    Target::Image(MemoryImage { base: BASE, bytes })
}

fn put_u32(bytes: &mut Vec<u8>, at: usize, v: u32) {
    let off = at - BASE;
    bytes[off..off + 4].copy_from_slice(&v.to_le_bytes());
}

#[test]
fn can_read_strings() {
    let text = b"Hello, world!\n".to_vec();
    let me = Target::Live(Pid::this());
    let got = read_string(&me, text.as_ptr() as usize, text.len()).unwrap();
    assert_eq!(got, "Hello, world!\n");
}

#[test]
fn live_read_returns_the_bytes_at_the_address() {
    let data: Vec<u8> = (0u8..32).collect();
    let me = Target::Live(Pid::this());
    let got = read_prims(&me, data.as_ptr() as usize, 4, 8).unwrap();
    assert_eq!(got, data);
}

#[test]
fn live_write_copies_into_the_process() {
    let dest: Vec<u8> = vec![0u8; 6];
    let mut me = Target::Live(Pid::this());
    let n = write_prims(&mut me, dest.as_ptr() as usize, &b"abcdef".to_vec()).unwrap();
    assert_eq!(n, 6);
    let back = read_prims(&me, dest.as_ptr() as usize, 1, 6).unwrap();
    assert_eq!(back, b"abcdef".to_vec());
}

#[test]
fn live_read_larger_than_any_buffer_is_refused() {
    let me = Target::Live(Pid::this());
    let too_many = isize::MAX as usize + 1;
    assert!(matches!(read_prims(&me, 0x1000, 1, too_many), Err(MemError::TooLarge(n)) if n == too_many));
}

#[test]
fn image_read_of_a_mapped_range_is_exact() {
    let t = image((0u8..16).collect());
    assert_eq!(read_prims(&t, BASE + 2, 2, 3).unwrap(), vec![2, 3, 4, 5, 6, 7]);
}

#[test]
fn image_read_past_the_end_is_short_and_whole() {
    let t = image((0u8..10).collect());
    // Seven bytes are mapped from BASE + 3; elements of four bytes give one.
    let got = read_prims(&t, BASE + 3, 4, 5).unwrap();
    assert_eq!(got, vec![3, 4, 5, 6]);
    let got = read_prims(&t, BASE + 3, 1, 20).unwrap();
    assert_eq!(got.len(), 7);
}

#[test]
fn image_read_of_zero_elements_is_empty() {
    let t = image(vec![1, 2, 3]);
    assert_eq!(read_prims(&t, 0, 4, 0).unwrap(), Vec::<u8>::new());
}

#[test]
fn image_read_at_an_unmapped_address_fails() {
    let t = image(vec![1, 2, 3]);
    assert!(matches!(read_prims(&t, BASE + 3, 1, 1), Err(MemError::Unmapped(a)) if a == BASE + 3));
    assert!(matches!(read_prims(&t, BASE - 1, 1, 1), Err(MemError::Unmapped(_))));
}

#[test]
fn exact_read_reports_a_short_transfer() {
    let t = image(vec![1, 2, 3]);
    assert!(matches!(
        read_exact(&t, BASE + 1, 4, 1),
        Err(MemError::Short { wanted: 4, got: 0 })
    ));
    assert!(matches!(read_word(&t, BASE), Err(MemError::Short { wanted: 4, got: 0 })));
}

#[test]
fn whole_elements_drop_a_partial_tail() {
    assert_eq!(keep_whole_elements(vec![1, 2, 3, 4, 5], 2), vec![1, 2, 3, 4]);
    assert_eq!(keep_whole_elements(vec![1, 2], 4), Vec::<u8>::new());
}

#[test]
fn words_are_little_endian() {
    assert_eq!(decode_words(&vec![0x78, 0x56, 0x34, 0x12, 0xff, 0, 0, 0, 9]), vec![0x12345678, 0xff]);
    let t = image(vec![0xef, 0xbe, 0xad, 0xde]);
    assert_eq!(read_word(&t, BASE).unwrap(), 0xdeadbeef);
}

#[test]
fn image_write_replaces_the_mapped_run() {
    let mut t = image(vec![0; 6]);
    assert_eq!(write_prims(&mut t, BASE + 4, &vec![7, 8, 9]).unwrap(), 2);
    assert!(matches!(write_prims(&mut t, BASE + 6, &vec![1]), Err(MemError::Unmapped(_))));
    assert_eq!(write_prims(&mut t, BASE + 9, &vec![]).unwrap(), 0);
    match t {
        Target::Image(img) => assert_eq!(img.bytes, vec![0, 0, 0, 0, 7, 8]),
        Target::Live(_) => panic!("the target changed kind"),
    }
}

#[test]
fn empty_path_is_one_read_at_the_base() {
    let mut bytes = vec![0u8; 0x40];
    put_u32(&mut bytes, BASE, 0xabcd);
    let t = image(bytes);
    assert_eq!(get_pointer_path(&t, BASE, None).unwrap(), 0xabcd);
    assert_eq!(get_pointer_path(&t, BASE, Some(&vec![])).unwrap(), 0xabcd);
    assert_eq!(read_word(&t, BASE).unwrap() as usize, 0xabcd);
}

#[test]
fn path_dereferences_hop_by_hop() {
    let mut bytes = vec![0u8; 0x100];
    put_u32(&mut bytes, BASE, (BASE + 0x10) as u32);
    put_u32(&mut bytes, BASE + 0x18, (BASE + 0x40) as u32);
    put_u32(&mut bytes, BASE + 0x44, 0x77);
    let t = image(bytes);
    assert_eq!(get_pointer_path(&t, BASE, Some(&vec![8])).unwrap(), BASE + 0x40);
    assert_eq!(get_pointer_path(&t, BASE, Some(&vec![8, 4])).unwrap(), 0x77);
}

#[test]
fn path_fails_at_the_first_bad_hop() {
    let mut bytes = vec![0u8; 0x100];
    put_u32(&mut bytes, BASE, 0x10);
    let t = image(bytes);
    assert!(matches!(get_pointer_path(&t, BASE, Some(&vec![0, 0])), Err(MemError::Unmapped(0x10))));
    assert!(matches!(get_pointer_path(&t, BASE, Some(&vec![usize::MAX])), Err(MemError::Overflow)));
}

#[test]
fn text_stops_at_the_null_byte() {
    let t = image(b"hi\0garbage".to_vec());
    assert_eq!(read_string(&t, BASE, 10).unwrap(), "hi");
}

#[test]
fn text_keeps_the_valid_prefix() {
    let t = image(vec![b'a', b'b', 0xff, b'c', b'd']);
    assert_eq!(read_string(&t, BASE, 5).unwrap(), "ab");
    let t = image(vec![b'h', 0xc3, 0xa9, b'l', b'l', b'o']);
    // The cap of two bytes falls inside the encoding of the second character.
    assert_eq!(read_string(&t, BASE, 2).unwrap(), "h");
    assert_eq!(read_string(&t, BASE, 3).unwrap(), "h\u{e9}");
}

#[test]
fn text_of_an_unmapped_address_fails() {
    let t = image(b"abc".to_vec());
    assert!(read_string(&t, BASE + 8, 4).is_err());
    assert_eq!(read_string(&t, BASE + 1, 0).unwrap(), "");
}
