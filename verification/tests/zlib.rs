//! The `gz*` file API.
use std::io::Write;
use touchhle::environment::Environment;
use touchhle::libc::zlib::{
    gzclose, gzdirect, gzeof, gzgetc, gzgets, gzopen, gzread, gzremaining, gzrewind, gzseek, gztell,
    is_gzip, open_stream, WholeFileRead, SEEK_CUR, SEEK_END, SEEK_SET,
};
use touchhle::mem::Mem;

const BUF: u32 = 0x1100;

fn environment() -> Environment {
    Environment::new(Mem::new(0x20000, 0x1000, 0x8000), Vec::new())
}

fn gzip(data: &[u8]) -> Vec<u8> {
    let mut e = flate2::write::GzEncoder::new(Vec::new(), flate2::Compression::default());
    e.write_all(data).unwrap();
    e.finish().unwrap()
}

#[test]
fn a_compressed_file_is_decoded() {
    let mut env = environment();
    let raw = gzip(b"Hello, gzip world");
    assert!(is_gzip(&raw));
    let f = gzopen(&mut env, Some(raw));
    assert_ne!(f, 0);
    assert_eq!(gzdirect(&env, f), 0);
    assert_eq!(gzread(&mut env, f, BUF, 100), 17);
    assert_eq!(env.mem.bytes_at(BUF, 17), b"Hello, gzip world".to_vec());
    assert_eq!(gzeof(&env, f), 1);
    assert_eq!(gzread(&mut env, f, BUF, 100), 0);
    assert_eq!(gzclose(&mut env, f), 0);
    assert_eq!(gzclose(&mut env, f), -1);
}

#[test]
fn a_plain_file_passes_through() {
    let mut env = environment();
    let f = gzopen(&mut env, Some(b"plain".to_vec()));
    assert_eq!(gzdirect(&env, f), 1);
    assert_eq!(gzread(&mut env, f, BUF, 3), 3);
    assert_eq!(gzread(&mut env, f, BUF + 3, 3), 2);
    assert_eq!(env.mem.bytes_at(BUF, 5), b"plain".to_vec());
}

#[test]
fn a_broken_file_passes_through() {
    let mut env = environment();
    let raw = vec![0x1f, 0x8b, 1, 2, 3];
    let f = gzopen(&mut env, Some(raw.clone()));
    assert_eq!(gzdirect(&env, f), 1);
    assert_eq!(gzread(&mut env, f, BUF, 10), 5);
    assert_eq!(env.mem.bytes_at(BUF, 5), raw);
}

#[test]
fn a_stream_goes_by_its_header_and_what_was_decoded() {
    let s = open_stream(vec![0x1f, 0x8b], Some(b"x".to_vec()));
    assert_eq!((s.data, s.pos, s.direct), (b"x".to_vec(), 0, false));
    let s = open_stream(vec![0x1f, 0x8b], None);
    assert_eq!((s.data, s.direct), (vec![0x1f, 0x8b], true));
    let s = open_stream(vec![0x1f], Some(b"x".to_vec()));
    assert_eq!((s.data, s.direct), (vec![0x1f], true));
}

#[test]
fn a_missing_file_has_no_handle() {
    let mut env = environment();
    assert_eq!(gzopen(&mut env, None), 0);
    assert_eq!(gzread(&mut env, 0x9000, BUF, 1), -1);
    assert_eq!(gzgets(&mut env, 0x9000, BUF, 10), 0);
    assert_eq!(gzgetc(&mut env, 0x9000), -1);
    assert_eq!(gzeof(&env, 0x9000), 1);
    assert_eq!(gztell(&env, 0x9000), -1);
    assert_eq!(gzrewind(&mut env, 0x9000), -1);
    assert_eq!(gzseek(&mut env, 0x9000, 0, SEEK_SET), -1);
    assert_eq!(gzdirect(&env, 0x9000), 0);
}

#[test]
fn lines() {
    let mut env = environment();
    let f = gzopen(&mut env, Some(b"one\ntwo\n\nlonger line".to_vec()));
    assert_eq!(gzgets(&mut env, f, BUF, 100), BUF);
    assert_eq!(env.mem.cstr_at(BUF), b"one\n".to_vec());
    assert_eq!(gzgets(&mut env, f, BUF, 3), BUF);
    assert_eq!(env.mem.cstr_at(BUF), b"tw".to_vec());
    assert_eq!(gzgets(&mut env, f, BUF, 100), BUF);
    assert_eq!(env.mem.cstr_at(BUF), b"o\n".to_vec());
    assert_eq!(gzgets(&mut env, f, BUF, 100), BUF);
    assert_eq!(env.mem.cstr_at(BUF), b"\n".to_vec());
    assert_eq!(gzgets(&mut env, f, BUF, 1), BUF);
    assert_eq!(env.mem.cstr_at(BUF), Vec::<u8>::new());
    assert_eq!(gzgets(&mut env, f, BUF, 0), 0);
    assert_eq!(gzgets(&mut env, f, BUF, 100), BUF);
    assert_eq!(env.mem.cstr_at(BUF), b"longer line".to_vec());
    assert_eq!(gzgets(&mut env, f, BUF, 100), 0);
}

#[test]
fn positions() {
    let mut env = environment();
    let f = gzopen(&mut env, Some(b"0123456789".to_vec()));
    assert_eq!(gzgetc(&mut env, f), b'0' as i32);
    assert_eq!(gztell(&env, f), 1);
    assert_eq!(gzremaining(&env, f), 9);
    assert_eq!(gzremaining(&env, f + 1), 0);
    assert_eq!(gzseek(&mut env, f, 3, SEEK_CUR), 4);
    assert_eq!(gzseek(&mut env, f, 1, SEEK_SET), 1);
    assert_eq!(gzgetc(&mut env, f), b'1' as i32);
    assert_eq!(gzseek(&mut env, f, 2, SEEK_CUR), 4);
    assert_eq!(gzgetc(&mut env, f), b'4' as i32);
    assert_eq!(gzseek(&mut env, f, -1, SEEK_END), 9);
    assert_eq!(gzgetc(&mut env, f), b'9' as i32);
    assert_eq!(gzgetc(&mut env, f), -1);
    assert_eq!(gzeof(&env, f), 1);
    // A seek out of the file does not move.
    assert_eq!(gzseek(&mut env, f, 11, SEEK_SET), -1);
    assert_eq!(gzseek(&mut env, f, -11, SEEK_CUR), -1);
    assert_eq!(gzseek(&mut env, f, 0, 3), -1);
    assert_eq!(gztell(&env, f), 10);
    assert_eq!(gzseek(&mut env, f, 2, SEEK_SET), 2);
    assert_eq!(gzrewind(&mut env, f), 0);
    assert_eq!(gztell(&env, f), 0);
    // Two files do not share a cursor.
    let g = gzopen(&mut env, Some(b"ab".to_vec()));
    assert_eq!(gzgetc(&mut env, g), b'a' as i32);
    assert_eq!(gztell(&env, f), 0);
}

#[test]
fn a_guest_file_is_read_in_chunks() {
    let mut env = environment();
    let mut read = WholeFileRead::start(&mut env);
    let buf = read.buffer();
    env.mem.write_bytes(buf, &b"first ".to_vec());
    assert!(read.chunk_read(&env, 6));
    env.mem.write_bytes(buf, &b"second".to_vec());
    assert!(read.chunk_read(&env, 6));
    assert!(!read.chunk_read(&env, 0));
    assert!(!read.chunk_read(&env, -1));
    assert_eq!(read.finish(&mut env), b"first second".to_vec());
    // The buffer is free again.
    assert_eq!(WholeFileRead::start(&mut env).buffer(), buf);
}
