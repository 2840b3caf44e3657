//! CommonCrypto.
use touchhle::environment::Environment;
use touchhle::libc::crypto::{
    store_digest, CCCrypt, CC_MD5, CC_SHA1, CC_SHA256, CC_SHA256_Final, CC_SHA256_Init,
    CC_SHA256_Update, SecItemAdd, SecItemCopyMatching, SecItemDelete, SecItemUpdate,
};
use touchhle::mem::Mem;

const DATA: u32 = 0x1100;
const OUT: u32 = 0x1200;
const AGAIN: u32 = 0x1300;
const MOVED: u32 = 0x1400;

fn environment() -> Environment {
    let mut env = Environment::new(Mem::new(0x10000, 0x1000, 0x8000), Vec::new());
    env.mem.write_bytes(DATA, &b"abc".to_vec());
    env
}

fn hex(bytes: &[u8]) -> String {
    bytes.iter().map(|b| format!("{:02x}", b)).collect()
}

#[test]
fn known_digests() {
    let mut env = environment();
    assert_eq!(CC_MD5(&mut env, DATA, 3, OUT), OUT);
    assert_eq!(hex(&env.mem.bytes_at(OUT, 16)), "900150983cd24fb0d6963f7d28e17f72");
    assert_eq!(CC_SHA1(&mut env, DATA, 3, OUT), OUT);
    assert_eq!(hex(&env.mem.bytes_at(OUT, 20)), "a9993e364706816aba3e25717850c26c9cd0d89d");
    assert_eq!(CC_SHA256(&mut env, DATA, 3, OUT), OUT);
    assert_eq!(
        hex(&env.mem.bytes_at(OUT, 32)),
        "ba7816bf8f01cfea414140de5dae2223b00361a396177a9cb410ff61f20015ad"
    );
    // Just the digest's bytes are written.
    assert_eq!(env.mem.read_u8(OUT - 1), 0);
    assert_eq!(env.mem.read_u8(OUT + 32), 0);
    assert_eq!(store_digest(&mut env, OUT, &vec![9, 8]), OUT);
    assert_eq!(env.mem.bytes_at(OUT, 2), vec![9, 8]);
}

#[test]
fn streaming_is_the_same_as_one_shot() {
    let mut env = environment();
    let ctx = 0x2000;
    assert_eq!(CC_SHA256_Init(&mut env, ctx), 1);
    assert_eq!(CC_SHA256_Update(&mut env, ctx, DATA, 1), 1);
    assert_eq!(CC_SHA256_Init(&mut env, ctx + 4), 1);
    assert_eq!(CC_SHA256_Update(&mut env, ctx + 8, DATA, 3), 1);
    assert_eq!(CC_SHA256_Init(&mut env, ctx + 8), 1);
    assert_eq!(CC_SHA256_Update(&mut env, ctx + 8, DATA + 1, 1), 1);
    assert_eq!(CC_SHA256_Final(&mut env, OUT, ctx + 8), 1);
    assert_eq!(CC_SHA256_Update(&mut env, ctx, DATA + 1, 2), 1);
    assert_eq!(CC_SHA256_Final(&mut env, OUT, ctx), 1);
    CC_SHA256(&mut env, DATA, 3, AGAIN);
    assert_eq!(env.mem.bytes_at(OUT, 32), env.mem.bytes_at(AGAIN, 32));
    // The context is gone, and nothing is written for it any more.
    env.mem.write_u8(OUT, 0);
    assert_eq!(CC_SHA256_Update(&mut env, ctx, DATA, 3), 1);
    assert_eq!(CC_SHA256_Final(&mut env, OUT, ctx), 1);
    assert_eq!(env.mem.read_u8(OUT), 0);
    // The other one has hashed nothing.
    assert_eq!(CC_SHA256_Final(&mut env, OUT, ctx + 4), 1);
    assert_eq!(
        hex(&env.mem.bytes_at(OUT, 4)),
        "e3b0c442"
    );
}

#[test]
fn the_keychain_is_empty() {
    let mut env = environment();
    assert_eq!(SecItemCopyMatching(&mut env, 0, 0), -25300);
    assert_eq!(SecItemAdd(&mut env, 0, 0), 0);
    assert_eq!(SecItemUpdate(&mut env, 0, 0), 0);
    assert_eq!(SecItemDelete(&mut env, 0), 0);
}

#[test]
fn crypt_passes_data_through() {
    let mut env = environment();
    let r = CCCrypt(&mut env, 0, 0, 0, 0, 16, 0, DATA, 3, OUT, 3, MOVED);
    assert_eq!(r, 0);
    assert_eq!(env.mem.read_u32(MOVED), 3);
    let r = CCCrypt(&mut env, 1, 0, 0, 0, 16, 0, OUT, 3, AGAIN, 10, 0);
    assert_eq!(r, 0);
    assert_eq!(env.mem.bytes_at(AGAIN, 3), b"abc".to_vec());
}

#[test]
fn crypt_needs_room() {
    let mut env = environment();
    let r = CCCrypt(&mut env, 0, 0, 0, 0, 16, 0, DATA, 3, OUT, 2, MOVED);
    assert_eq!(r, -4301);
    assert_eq!(env.mem.read_u32(MOVED), 0);
    assert_eq!(env.mem.read_u8(OUT), 0);
    // Without a buffer only the length is reported.
    let r = CCCrypt(&mut env, 0, 0, 0, 0, 16, 0, DATA, 3, 0, 3, MOVED);
    assert_eq!(r, 0);
    assert_eq!(env.mem.read_u32(MOVED), 3);
}
