//! Guest memory and the parts of the C library that manage it.
use touchhle::environment::Environment;
use touchhle::libc::crt::{stack_chk_guard, STACK_CHK_GUARD};
use touchhle::libc::stdlib::{calloc, free, malloc, malloc_size, realloc, valloc, FreeOutcome};
use touchhle::mem::Mem;

const HEAP: u32 = 0x2000;

fn environment() -> Environment {
    Environment::new(Mem::new(0x20000, 0x1000, HEAP), b"/App/App".to_vec())
}

#[test]
fn new_memory_is_zeroed_and_bounded() {
    let mem = Mem::new(0x3000, 0x1000, 0x2000);
    assert_eq!(mem.size(), 0x3000);
    assert_eq!(mem.read_u8(0x1000), 0);
    assert_eq!(mem.read_u32(0x2ffc), 0);
    assert!(!mem.is_valid(0, 1));
    assert!(!mem.is_valid(0xfff, 1));
    assert!(mem.is_valid(0x1000, 0x2000));
    assert!(!mem.is_valid(0x1000, 0x2001));
    assert!(!mem.is_valid(0xffff_ffff, 0xffff_ffff));
}

#[test]
fn numbers_are_little_endian() {
    let mut mem = Mem::new(0x3000, 0x1000, 0x2000);
    mem.write_u32(0x1000, 0x1234_5678);
    assert_eq!(mem.bytes_at(0x1000, 4), vec![0x78, 0x56, 0x34, 0x12]);
    assert_eq!(mem.read_u32(0x1000), 0x1234_5678);
    mem.write_u16(0x1004, 0xabcd);
    assert_eq!(mem.bytes_at(0x1004, 2), vec![0xcd, 0xab]);
    mem.write_u8(0x1001, 0xff);
    assert_eq!(mem.read_u32(0x1000), 0x1234_ff78);
    mem.write_bytes(0x1010, &vec![1, 2, 3]);
    assert_eq!(mem.bytes_at(0x100f, 5), vec![0, 1, 2, 3, 0]);
}

#[test]
fn strings_end_at_their_terminator() {
    let mut mem = Mem::new(0x3000, 0x1000, 0x2000);
    mem.write_bytes(0x1100, &b"hello\0world\0".to_vec());
    assert_eq!(mem.strlen(0x1100), 5);
    assert_eq!(mem.cstr_at(0x1100), b"hello".to_vec());
    assert_eq!(mem.cstr_at(0x1106), b"world".to_vec());
    assert_eq!(mem.cstr_at(0x1105), Vec::<u8>::new());
}

#[test]
fn what_memory_can_do_can_be_asked() {
    let mut mem = Mem::new(0x3000, 0x1000, 0x2000);
    assert!(mem.has_room(0x1000, false));
    assert!(!mem.has_room(0x1001, false));
    assert!(mem.has_room(1, true));
    assert!(!mem.has_room(u32::MAX, false));
    let p = mem.malloc(0xff0);
    assert!(mem.is_live(p));
    assert!(!mem.is_live(p + 16));
    assert!(mem.has_room(16, false));
    assert!(!mem.has_room(16, true));
    assert!(!mem.has_room(17, false));
    // A block that would be given back makes room, and is still there.
    let q = mem.malloc(16);
    assert!(!mem.has_room(1, false));
    assert!(mem.has_room_without(q, 16, false));
    assert!(!mem.has_room_without(q, 17, false));
    assert!(mem.has_room_without(p, 0xff0, false));
    assert!(!mem.has_room_without(p, 0x1000, false));
    assert!(mem.is_live(p) && mem.is_live(q));
    assert_eq!((mem.malloc_size(p), mem.malloc_size(q)), (0xff0, 16));
    assert!(!mem.has_room(1, false));
    mem.free(q);
    mem.free(p);
    assert!(!mem.is_live(p));
    assert!(mem.has_cstr(0x1000));
    assert!(!mem.has_cstr(0));
    assert!(!mem.has_cstr(0x3000));
    mem.write_bytes(0x2ffe, &vec![1, 2]);
    assert!(!mem.has_cstr(0x2ffe));
}

#[test]
fn blocks_are_rounded_and_do_not_overlap() {
    let mut env = environment();
    env.errno = 7;
    let a = malloc(&mut env, 0);
    assert_eq!(env.errno, 0);
    let b = malloc(&mut env, 17);
    let c = malloc(&mut env, 16);
    assert_eq!(malloc_size(&env, a), 16);
    assert_eq!(malloc_size(&env, b), 32);
    assert_eq!(malloc_size(&env, c), 16);
    assert_eq!((a, b, c), (HEAP, HEAP + 16, HEAP + 48));
    assert_eq!(free(&mut env, b, false), FreeOutcome::Freed);
    // The gap that was left is used again.
    let d = malloc(&mut env, 20);
    assert_eq!(d, b);
}

#[test]
fn valloc_is_on_a_page_boundary() {
    let mut env = environment();
    let _ = malloc(&mut env, 5);
    let p = valloc(&mut env, 100);
    assert_eq!(p % 4096, 0);
    assert_eq!(p, 0x3000);
    assert_eq!(malloc_size(&env, p), 112);
}

#[test]
fn calloc_zeroes_a_used_block() {
    let mut env = environment();
    let a = malloc(&mut env, 16);
    env.mem.write_bytes(a, &vec![0xaa; 16]);
    free(&mut env, a, false);
    let b = calloc(&mut env, 3, 4);
    assert_eq!(b, a);
    assert_eq!(env.mem.bytes_at(b, 16), vec![0, 0, 0, 0, 0, 0, 0, 0, 0, 0, 0, 0, 0xaa, 0xaa, 0xaa, 0xaa]);
}

#[test]
fn realloc_grows_with_the_contents() {
    let mut env = environment();
    let a = realloc(&mut env, 0, 8);
    env.mem.write_bytes(a, &(1..=16).collect());
    assert_eq!(realloc(&mut env, a, 16), a);
    let _wall = malloc(&mut env, 1);
    let b = realloc(&mut env, a, 40);
    assert_ne!(a, b);
    assert_eq!(env.mem.bytes_at(b, 16), (1..=16).collect::<Vec<u8>>());
    assert_eq!(malloc_size(&env, b), 48);
    // The old block is free again.
    assert_eq!(malloc(&mut env, 16), a);
    // Shrinking keeps the block.
    assert_eq!(realloc(&mut env, b, 1), b);
}

#[test]
fn free_tells_objects_and_null_apart() {
    let mut env = environment();
    env.errno = 9;
    assert_eq!(free(&mut env, 0x5000, true), FreeOutcome::IsObject);
    assert_eq!(env.errno, 9);
    assert_eq!(free(&mut env, 0, false), FreeOutcome::Nothing);
    assert_eq!(env.errno, 0);
}

#[test]
fn free_notices_an_address_that_reads_as_text() {
    // 0x20202020 is four spaces.
    let mut env = Environment::new(Mem::new(0x2020_2100, 0x1000, 0x2020_2020), Vec::new());
    let p = malloc(&mut env, 16);
    assert_eq!(p, 0x2020_2020);
    assert_eq!(free(&mut env, p, false), FreeOutcome::FreedTextLike);
    let mut env = Environment::new(Mem::new(0x2020_1f00, 0x1000, 0x2020_1e20), Vec::new());
    let p = malloc(&mut env, 16);
    assert_eq!(p, 0x2020_1e20);
    assert_eq!(free(&mut env, p, false), FreeOutcome::Freed);
}

#[test]
fn stack_guard_is_on_the_heap() {
    let mut env = environment();
    let p = stack_chk_guard(&mut env);
    assert_eq!(env.mem.read_u32(p), 0xdead_be00);
    assert_eq!(STACK_CHK_GUARD, 0xdead_be00);
    assert_eq!(malloc_size(&env, p), 16);
}
