[package]
name = "touchhle"
version = "0.1.0"
edition = "2021"
publish = false

[dependencies]
digest = "=0.10.7"
flate2 = "=1.1.10"
libc = "=0.2.191"
md-5 = "=0.10.6"
sdl2 = { version = "0.38", features = ["hidapi"] }
sdl2-sys = "0.38"
sha1 = "=0.10.7"
sha2 = "=0.10.9"
zip = { version = "=2.6.1", default-features = false, features = ["deflate"] }
