//! Conversions, random numbers, division, searching and the process.
use touchhle::environment::Environment;
use touchhle::libc::char_source::{ByteStream, CStr, CharSource};
use touchhle::libc::cxxabi::{__cxa_atexit, __cxa_finalize};
use touchhle::libc::division::{
    __divdi3, __divsi3, __moddi3, __modsi3, __udivdi3, __udivsi3, __umoddi3, __umodsi3, div,
};
use touchhle::libc::multibyte::{mbstowcs, realpath, wcstombs, wcstoul};
use touchhle::libc::number_text::{from_digits, is_digit};
use touchhle::libc::process::{
    _NSGetExecutablePath, assertion_failure, assertion_report, exit, getenv, setenv, system, unsetenv,
};
use touchhle::libc::search::{dispatch_once, Bsearch};
use touchhle::libc::stdlib::{
    arc4random, atexit, atof_inner, atof_inner_generic, atoi, atol, begin_strtod,
    count_whitespace_generic, end_strtod, prng, rand, rand_r, random, srand, sranddev, srandom,
    str_to_int_inner_generic, strtol, strtol_inner, strtoll, strtoul, strtoull, RAND_MAX,
};
use touchhle::libc::text::{push_decimal, push_signed_decimal, str_eq};
use touchhle::mem::Mem;

const STR: u32 = 0x1100;
const END: u32 = 0x1080;

fn environment() -> Environment {
    Environment::new(Mem::new(0x20000, 0x1000, 0x4000), b"/var/App".to_vec())
}

fn with_str(s: &[u8]) -> Environment {
    let mut env = environment();
    let mut bytes = s.to_vec();
    bytes.push(0);
    env.mem.write_bytes(STR, &bytes);
    env
}

fn ul(s: &[u8], base: i32) -> (u32, u32) {
    let mut env = with_str(s);
    env.errno = 5;
    let r = strtoul(&mut env, STR, END, base);
    assert_eq!(env.errno, 0);
    (r, env.mem.read_u32(END) - STR)
}

#[test]
fn strtoul_decimal() {
    assert_eq!(ul(b"123abc", 10), (123, 3));
    assert_eq!(ul(b" \t\n\x0b\x0c\r+42", 10), (42, 9));
    assert_eq!(ul(b"-1", 10), (0xffff_ffff, 2));
    assert_eq!(ul(b"-0", 10), (0, 2));
    assert_eq!(ul(b"4294967295", 10), (u32::MAX, 10));
    assert_eq!(ul(b"4294967296", 10), (u32::MAX, 10));
    assert_eq!(ul(b"-4294967296", 10), (1, 11));
}

#[test]
fn strtoul_without_a_number_ends_at_its_start() {
    assert_eq!(ul(b"", 10), (0, 0));
    assert_eq!(ul(b"  xyz", 10), (0, 0));
    assert_eq!(ul(b"-", 10), (0, 0));
    assert_eq!(ul(b"0x", 16), (0, 0));
    assert_eq!(ul(b"9", 8), (0, 0));
}

#[test]
fn strtoul_bases_and_prefixes() {
    assert_eq!(ul(b"0x1Fg", 16), (31, 4));
    assert_eq!(ul(b"0X1f", 0), (31, 4));
    assert_eq!(ul(b"1f", 16), (31, 2));
    assert_eq!(ul(b"0777", 8), (511, 4));
    assert_eq!(ul(b"0777", 0), (511, 4));
    assert_eq!(ul(b"777", 0), (777, 3));
    // A zero alone is the prefix of an octal number, which stands for 0.
    assert_eq!(ul(b"0", 8), (0, 1));
    assert_eq!(ul(b"0", 0), (0, 1));
    assert_eq!(ul(b"08", 0), (0, 1));
    assert_eq!(ul(b"0", 10), (0, 1));
    // So does a sign before no octal digits.
    assert_eq!(ul(b"-", 8), (0, 1));
    assert_eq!(ul(b"101", 2), (5, 3));
    assert_eq!(ul(b"Zz", 36), (35 * 36 + 35, 2));
    assert_eq!(ul(b"12", 2), (1, 1));
}

#[test]
fn strtoul_may_have_no_endptr() {
    let mut env = with_str(b"17");
    assert_eq!(strtoul(&mut env, STR, 0, 10), 17);
    assert_eq!(env.mem.read_u32(END), 0);
}

#[test]
fn strtoull_and_strtoll_have_64_bits() {
    let mut env = with_str(b"18446744073709551615");
    assert_eq!(strtoull(&mut env, STR, END, 10), u64::MAX);
    assert_eq!(env.mem.read_u32(END), STR + 20);
    let mut env = with_str(b"18446744073709551616");
    assert_eq!(strtoull(&mut env, STR, 0, 10), u64::MAX);
    let mut env = with_str(b"-1");
    assert_eq!(strtoull(&mut env, STR, 0, 10), u64::MAX);
    let mut env = with_str(b"-9223372036854775807");
    assert_eq!(strtoll(&mut env, STR, 0, 10), -9223372036854775807);
    let mut env = with_str(b"9223372036854775808");
    assert_eq!(strtoll(&mut env, STR, 0, 10), i64::MAX);
    let mut env = with_str(b"x");
    assert_eq!(strtoll(&mut env, STR, END, 10), 0);
    assert_eq!(env.mem.read_u32(END), STR);
}

#[test]
fn strtol_saturates() {
    let mut env = with_str(b"  -2147483647,");
    assert_eq!(strtol(&mut env, STR, END, 10), -2147483647);
    assert_eq!(env.mem.read_u32(END), STR + 13);
    let mut env = with_str(b"-2147483648");
    assert_eq!(strtol(&mut env, STR, 0, 10), -2147483647);
    let mut env = with_str(b"99999999999");
    assert_eq!(strtol(&mut env, STR, 0, 10), i32::MAX);
    let env = with_str(b"0x10");
    assert_eq!(strtol_inner(&env, STR, 16), Ok((16, 4)));
    assert_eq!(strtol_inner(&env, STR, 0), Ok((16, 4)));
    assert_eq!(strtol_inner(&env, STR, 10), Ok((0, 1)));
    let env = with_str(b"zz");
    assert_eq!(strtol_inner(&env, STR, 10), Err(()));
}

#[test]
fn atoi_and_atol() {
    let mut env = with_str(b" 12 34");
    env.errno = 3;
    assert_eq!(atoi(&mut env, STR), 12);
    assert_eq!(env.errno, 0);
    assert_eq!(atol(&mut env, STR + 3), 34);
    let mut env = with_str(b"none");
    assert_eq!(atoi(&mut env, STR), 0);
}

fn stream(s: &[u8]) -> ByteStream {
    ByteStream { data: s.to_vec(), pos: 0 }
}

fn radix(digits: &Vec<u8>, base: u32) -> u32 {
    from_digits(digits, base, u32::MAX as u64) as u32
}

fn negate(n: u32) -> u32 {
    0u32.wrapping_sub(n)
}

#[test]
fn integers_from_a_stream() {
    let mut s = stream(b"  42 7");
    assert_eq!(str_to_int_inner_generic(&mut s, 0, 10, 0, radix, negate), Ok((42, 4)));
    assert_eq!(s.pos, 4);
    assert_eq!(str_to_int_inner_generic(&mut s, 0, 10, 0, radix, negate), Ok((7, 2)));
    assert_eq!(s.pos, 6);
    assert_eq!(str_to_int_inner_generic(&mut s, 0, 10, 0, radix, negate), Err(()));
    assert_eq!(s.pos, 6);
    // The limit ends a number, and the rest is there for the next.
    let mut s = stream(b"123456");
    assert_eq!(str_to_int_inner_generic(&mut s, 0, 10, 4, radix, negate), Ok((1234, 4)));
    assert_eq!(str_to_int_inner_generic(&mut s, 0, 10, 4, radix, negate), Ok((56, 2)));
    // A limit just behind the zero, or behind the prefix, leaves the number 0.
    let mut s = stream(b"0x1");
    assert_eq!(str_to_int_inner_generic(&mut s, 0, 16, 1, radix, negate), Ok((0, 1)));
    assert_eq!(s.pos, 1);
    let mut s = stream(b"0x1");
    assert_eq!(str_to_int_inner_generic(&mut s, 0, 16, 2, radix, negate), Ok((0, 2)));
    assert_eq!(s.pos, 2);
    let mut s = stream(b"-0x1");
    assert_eq!(str_to_int_inner_generic(&mut s, 0, 16, 3, radix, negate), Ok((0, 3)));
    let mut s = stream(b"0x1");
    assert_eq!(str_to_int_inner_generic(&mut s, 0, 16, 3, radix, negate), Ok((1, 3)));
    // An octal number's zero counts once.
    let mut s = stream(b"017");
    assert_eq!(str_to_int_inner_generic(&mut s, 0, 8, 0, radix, negate), Ok((15, 3)));
    assert_eq!(s.pos, 3);
    let mut s = stream(b"0123");
    assert_eq!(str_to_int_inner_generic(&mut s, 0, 8, 3, radix, negate), Ok((0o12, 3)));
    assert_eq!(s.pos, 3);
    let mut s = stream(b"0");
    assert_eq!(str_to_int_inner_generic(&mut s, 0, 8, 0, radix, negate), Ok((0, 1)));
    let mut s = stream(b"0");
    assert_eq!(str_to_int_inner_generic(&mut s, 0, 8, 1, radix, negate), Ok((0, 1)));
    let mut s = stream(b"-07");
    assert_eq!(str_to_int_inner_generic(&mut s, 0, 8, 2, radix, negate), Ok((0, 2)));
    assert_eq!(s.pos, 2);
    let mut s = stream(b"08");
    assert_eq!(str_to_int_inner_generic(&mut s, 0, 0, 0, radix, negate), Ok((0, 1)));
    assert_eq!(s.pos, 1);
    let mut s = stream(b"-3");
    assert_eq!(str_to_int_inner_generic(&mut s, 0, 10, 1, radix, negate), Err(()));
    assert_eq!(s.pos, 1);
    // A sign that ends a stream is the prefix of an octal number.
    let mut s = stream(b"+");
    assert_eq!(str_to_int_inner_generic(&mut s, 0, 8, 0, radix, negate), Ok((0, 1)));
}

#[test]
fn sources_give_and_take_back() {
    let mut s = stream(b"ab");
    assert_eq!(s.getc(9), Ok(b'a'));
    assert_eq!(s.getc(9), Ok(b'b'));
    assert_eq!(s.getc(9), Err(()));
    s.ungetc(b'b');
    assert_eq!(s.getc(0), Ok(b'b'));
    let env = with_str(b"xy");
    let mut c = CStr { mem: &env.mem, start: STR };
    assert_eq!(c.getc(1), Ok(b'y'));
    c.ungetc(b'y');
    assert_eq!(c.getc(0), Ok(b'x'));
}

#[test]
fn whitespace_is_counted() {
    let mut s = stream(b" \x0b\tx");
    assert_eq!(count_whitespace_generic(&mut s, 0), Ok(3));
    assert_eq!(s.pos, 3);
    let mut s = stream(b"  ");
    assert_eq!(count_whitespace_generic(&mut s, 0), Err(2));
    let env = with_str(b"a  b");
    let mut c = CStr { mem: &env.mem, start: STR };
    assert_eq!(count_whitespace_generic(&mut c, 1), Ok(2));
}

#[test]
fn digits_in_bases() {
    assert!(is_digit(b'7', 8));
    assert!(!is_digit(b'8', 8));
    assert!(is_digit(b'f', 16));
    assert!(is_digit(b'F', 16));
    assert!(!is_digit(b'g', 16));
    assert!(!is_digit(0xff, 36));
    assert_eq!(from_digits(&b"ff".to_vec(), 16, 255), 255);
    assert_eq!(from_digits(&b"100".to_vec(), 16, 255), 255);
    assert_eq!(from_digits(&Vec::new(), 16, 255), 255);
}

fn float_text(s: &[u8]) -> (Vec<u8>, u32) {
    atof_inner(&with_str(s), STR)
}

#[test]
fn text_of_decimal_numbers() {
    assert_eq!(float_text(b"  -12.5e+3x"), (b"-12.5e+3".to_vec(), 10));
    assert_eq!(float_text(b"1E5"), (b"1E5".to_vec(), 3));
    assert_eq!(float_text(b".5"), (b".5".to_vec(), 2));
    assert_eq!(float_text(b"7."), (b"7.".to_vec(), 2));
    assert_eq!(float_text(b"abc"), (Vec::new(), 0));
    assert_eq!(float_text(b"3e"), (b"3e".to_vec(), 2));
    assert_eq!(float_text(b"1.2.3"), (b"1.2".to_vec(), 3));
    let mut s = stream(b"2.5 rest");
    assert_eq!(atof_inner_generic(&mut s, 0), (b"2.5".to_vec(), 3));
    assert_eq!(s.pos, 3);
    let mut s = stream(b" ");
    assert_eq!(atof_inner_generic(&mut s, 0), (Vec::new(), 1));
}

#[test]
fn strtod_stores_where_it_ended() {
    let mut env = with_str(b" 1.5kg");
    env.errno = 1;
    let (text, len) = begin_strtod(&mut env, STR);
    assert_eq!(env.errno, 0);
    assert_eq!(text, b"1.5".to_vec());
    end_strtod(&mut env, STR, END, true, len);
    assert_eq!(env.mem.read_u32(END), STR + 4);
    end_strtod(&mut env, STR, END, false, len);
    assert_eq!(env.mem.read_u32(END), STR);
    env.mem.write_u32(END, 77);
    end_strtod(&mut env, STR, 0, true, len);
    assert_eq!(env.mem.read_u32(END), 77);
}

#[test]
fn random_numbers() {
    assert_eq!(prng(1), 270369);
    assert_eq!(prng(0), prng(1));
    assert_eq!(prng(270369), 67634689);
    let mut env = environment();
    assert_eq!(rand(&mut env), 270369);
    assert_eq!(rand(&mut env), 67634689);
    srand(&mut env, 1);
    assert_eq!(rand(&mut env), 270369);
    for _ in 0..1000 {
        let r = rand(&mut env);
        assert!((0..=RAND_MAX).contains(&r));
        assert_ne!(env.libc_state.stdlib.rand, 0);
    }
    env.errno = 4;
    srandom(&mut env, 270369);
    assert_eq!(env.errno, 0);
    assert_eq!(random(&mut env), 67634689);
    assert_eq!(arc4random(&mut env), 270369);
    env.mem.write_u32(END, 1);
    assert_eq!(rand_r(&mut env, END), 270369);
    assert_eq!(env.mem.read_u32(END), 270369);
    sranddev(&mut env, 0x1_2345_6789_0000_0001);
    assert_eq!(env.libc_state.stdlib.rand, 0x0000_0001 ^ 0x2345_6789);
}

#[test]
fn the_high_bit_is_not_returned() {
    let mut env = environment();
    // A state whose successor has the highest bit set.
    let mut seed = 1;
    while prng(seed) < 0x8000_0000 {
        seed += 1;
    }
    srand(&mut env, seed);
    let r = rand(&mut env);
    assert_eq!(r as u32, prng(seed) - 0x8000_0000);
}

#[test]
fn division() {
    let r = div(-7, 2);
    assert_eq!((r.quot, r.rem), (-3, -1));
    let r = div(i32::MIN, -1);
    assert_eq!((r.quot, r.rem), (i32::MIN, 0));
    assert_eq!(__divsi3(7, -2), -3);
    assert_eq!(__modsi3(7, -2), 1);
    assert_eq!(__modsi3(-7, -2), -1);
    assert_eq!(__divsi3(5, 0), 0);
    assert_eq!(__modsi3(5, 0), 0);
    assert_eq!(__udivsi3(u32::MAX, 2), 0x7fff_ffff);
    assert_eq!(__umodsi3(10, 4), 2);
    assert_eq!(__udivsi3(1, 0), 0);
    assert_eq!(__umodsi3(1, 0), 0);
    assert_eq!(__udivdi3(u64::MAX, 3), u64::MAX / 3);
    assert_eq!(__umoddi3(10, 4), 2);
    assert_eq!(__udivdi3(1, 0), 0);
    assert_eq!(__umoddi3(1, 0), 0);
    assert_eq!(__divdi3(-7i64 as u64, 2), -3);
    assert_eq!(__moddi3(-7i64 as u64, 2), -1);
    assert_eq!(__divdi3(i64::MIN as u64, -1i64 as u64), i64::MIN);
    assert_eq!(__moddi3(i64::MIN as u64, -1i64 as u64), 0);
    assert_eq!(__divdi3(i64::MIN as u64, 1), i64::MIN);
    assert_eq!(__divdi3(3, i64::MIN as u64), 0);
    assert_eq!(__moddi3(3, i64::MIN as u64), 3);
    assert_eq!(__divdi3(1, 0), 0);
    assert_eq!(__moddi3(1, 0), 0);
}

#[test]
fn executable_path() {
    let mut env = environment();
    // Too small, or no buffer: only the size is reported.
    env.mem.write_u32(END, 8);
    assert_eq!(_NSGetExecutablePath(&mut env, STR, END), -1);
    assert_eq!(env.mem.read_u32(END), 9);
    assert_eq!(env.mem.read_u8(STR), 0);
    assert_eq!(_NSGetExecutablePath(&mut env, 0, END), -1);
    assert_eq!(_NSGetExecutablePath(&mut env, STR, 0), -1);
    env.mem.write_u32(END, 9);
    assert_eq!(_NSGetExecutablePath(&mut env, STR, END), 0);
    assert_eq!(env.mem.cstr_at(STR), b"/var/App".to_vec());
    assert_eq!(env.mem.read_u32(END), 9);
}

#[test]
fn environment_variables() {
    let mut env = environment();
    env.mem.write_bytes(0x1200, &b"HOME\0".to_vec());
    env.mem.write_bytes(0x1300, &b"/home\0".to_vec());
    env.mem.write_bytes(0x1400, &b"/root\0".to_vec());
    env.mem.write_bytes(0x1500, &b"PATH\0".to_vec());
    assert_eq!(getenv(&env, 0x1200), 0);
    assert_eq!(unsetenv(&mut env, 0x1200), -1);
    assert_eq!(env.errno, 22);
    assert_eq!(setenv(&mut env, 0x1200, 0x1300, 0), 0);
    assert_eq!(env.errno, 0);
    let first = getenv(&env, 0x1200);
    assert_eq!(env.mem.cstr_at(first), b"/home".to_vec());
    assert_ne!(first, 0x1300);
    // A variable that is set stays as it is, unless it is overwritten.
    assert_eq!(setenv(&mut env, 0x1200, 0x1400, 0), 0);
    assert_eq!(getenv(&env, 0x1200), first);
    assert_eq!(setenv(&mut env, 0x1500, 0x1400, 0), 0);
    let path = getenv(&env, 0x1500);
    assert_eq!(setenv(&mut env, 0x1200, 0x1400, 1), 0);
    let second = getenv(&env, 0x1200);
    assert_eq!(env.mem.cstr_at(second), b"/root".to_vec());
    // The other variable is left alone.
    assert_eq!(getenv(&env, 0x1500), path);
    assert_eq!(env.mem.cstr_at(path), b"/root".to_vec());
}

#[test]
fn setting_a_variable_to_its_own_value() {
    let mut env = environment();
    env.mem.write_bytes(0x1200, &b"A\0".to_vec());
    env.mem.write_bytes(0x1300, &b"value\0".to_vec());
    setenv(&mut env, 0x1200, 0x1300, 1);
    let p = getenv(&env, 0x1200);
    setenv(&mut env, 0x1200, p, 1);
    let q = getenv(&env, 0x1200);
    assert_eq!(env.mem.cstr_at(q), b"value".to_vec());
}

#[test]
fn ends_of_the_process() {
    let mut env = environment();
    env.errno = 8;
    assert_eq!(exit(&mut env, 3), 3);
    assert_eq!(env.errno, 0);
    assert_eq!(system(0), 0);
    assert_eq!(atexit(&mut env, 0x1234), 0);
    assert_eq!(__cxa_atexit(&mut env, 0x1234, 0, 0), 0);
    __cxa_finalize(&mut env, 0);
    env.mem.write_bytes(0x1200, &b"main\0".to_vec());
    env.mem.write_bytes(0x1300, &b"a.c\0".to_vec());
    env.mem.write_bytes(0x1400, &b"x > 0\0".to_vec());
    assert_eq!(
        assertion_report(&env, 0x1200, 0x1300, -12, 0x1400),
        b"Assertion failed: (x > 0), function main, file a.c, line -12.".to_vec()
    );
    assert_eq!(
        assertion_failure(&env, 0x1200, 0x1300, 12, 0x1400),
        b"Guest assertion failed: (x > 0) in main at a.c:12".to_vec()
    );
    // What is not UTF-8 is shown as a question mark.
    env.mem.write_bytes(0x1200, &vec![0xff, 0xfe, 0]);
    assert_eq!(
        assertion_report(&env, 0x1200, 0x1300, 7, 0x1400),
        b"Assertion failed: (x > 0), function ?, file a.c, line 7.".to_vec()
    );
}

#[test]
fn decimal_text() {
    let mut out = b"n=".to_vec();
    push_decimal(&mut out, 0);
    push_decimal(&mut out, 1203);
    push_signed_decimal(&mut out, i32::MIN);
    assert_eq!(out, b"n=01203-2147483648".to_vec());
    assert!(str_eq("abc", "abc"));
    assert!(!str_eq("abc", "abd"));
    assert!(!str_eq("abc", "ab"));
}

fn search(items: &[i32], key: i32) -> Option<usize> {
    let mut s = Bsearch::new(0x1000, items.len() as u32, 4);
    let mut calls = 0;
    while let Some(addr) = s.probe() {
        calls += 1;
        assert!(calls <= 32);
        let i = ((addr - 0x1000) / 4) as usize;
        if s.answer((key > items[i]) as i32 - (key < items[i]) as i32) {
            return Some(i);
        }
    }
    None
}

#[test]
fn binary_search() {
    let items = [1, 3, 5, 7, 9, 11];
    for (i, &item) in items.iter().enumerate() {
        assert_eq!(search(&items, item), Some(i));
    }
    for missing in [0, 2, 4, 6, 8, 10, 12] {
        assert_eq!(search(&items, missing), None);
    }
    assert_eq!(search(&[], 1), None);
    assert_eq!(search(&[4], 4), Some(0));
    // Items of no size are all at the same address.
    let s = Bsearch::new(0x1000, 5, 0);
    assert_eq!(s.probe(), Some(0x1000));
}

#[test]
fn a_block_runs_once() {
    let mut env = environment();
    env.mem.write_u32(STR + 12, 0x8001);
    assert_eq!(dispatch_once(&mut env, END, STR), Some(0x8001));
    assert_eq!(env.mem.read_u32(END), 1);
    assert_eq!(dispatch_once(&mut env, END, STR), None);
    // A block without a function is not run.
    env.mem.write_u32(END, 0);
    env.mem.write_u32(STR + 12, 0);
    assert_eq!(dispatch_once(&mut env, END, STR), None);
    assert_eq!(env.mem.read_u32(END), 1);
}

fn write_wide(env: &mut Environment, at: u32, text: &str) {
    let mut p = at;
    for c in text.chars() {
        env.mem.write_u32(p, c as u32);
        p += 4;
    }
    env.mem.write_u32(p, 0);
}

#[test]
fn wide_strings() {
    let mut env = with_str(b"abc");
    env.errno = 2;
    assert_eq!(mbstowcs(&mut env, 0x1200, STR, 10), 3);
    assert_eq!(env.errno, 0);
    assert_eq!(env.mem.read_u32(0x1200), 'a' as u32);
    assert_eq!(env.mem.read_u32(0x1208), 'c' as u32);
    assert_eq!(env.mem.read_u32(0x120c), 0);
    env.mem.write_u32(0x1208, 99);
    assert_eq!(mbstowcs(&mut env, 0x1200, STR, 2), 2);
    assert_eq!(env.mem.read_u32(0x1208), 99);
    write_wide(&mut env, 0x1300, "h\u{e9}\u{20ac}\u{1f600}");
    assert_eq!(wcstombs(&mut env, 0x1400, 0x1300, 20), 10);
    assert_eq!(env.mem.cstr_at(0x1400), "h\u{e9}\u{20ac}\u{1f600}".as_bytes().to_vec());
    env.mem.write_u8(0x150a, 0xaa);
    assert_eq!(wcstombs(&mut env, 0x1500, 0x1300, 10), 10);
    assert_eq!(env.mem.read_u8(0x150a), 0xaa);
    assert_eq!(wcstombs(&mut env, 0x1500, 0x1300, 0), 0);
}

#[test]
fn numbers_and_strings_come_back() {
    for n in [0, 7, -7, 1203, i32::MAX, -i32::MAX] {
        let mut text = Vec::new();
        push_signed_decimal(&mut text, n);
        let mut env = with_str(&text);
        assert_eq!(strtol(&mut env, STR, END, 10), n);
        assert_eq!(env.mem.read_u32(END), STR + text.len() as u32);
    }
    let mut env = with_str(b"there and back");
    mbstowcs(&mut env, 0x1200, STR, 100);
    wcstombs(&mut env, 0x1500, 0x1200, 100);
    assert_eq!(env.mem.cstr_at(0x1500), b"there and back".to_vec());
}

#[test]
fn wide_numbers() {
    let mut env = environment();
    write_wide(&mut env, 0x1300, " -0x10");
    env.errno = 2;
    assert_eq!(wcstoul(&mut env, 0x1300, 0, 16), 0u32.wrapping_sub(16));
    assert_eq!(env.errno, 0);
    assert_eq!(wcstoul(&mut env, 0x1300, 0, 0), 0u32.wrapping_sub(16));
    write_wide(&mut env, 0x1300, "none");
    assert_eq!(wcstoul(&mut env, 0x1300, 0, 10), 0);
}

#[test]
fn resolved_paths() {
    let mut env = environment();
    let parts = vec![b"var".to_vec(), b"mobile".to_vec(), b"x.txt".to_vec()];
    assert_eq!(realpath(&mut env, &parts, 0x1200), 0x1200);
    assert_eq!(env.mem.cstr_at(0x1200), b"/var/mobile/x.txt".to_vec());
    assert_eq!(realpath(&mut env, &Vec::new(), 0x1200), 0x1200);
    assert_eq!(env.mem.cstr_at(0x1200), b"/".to_vec());
}
