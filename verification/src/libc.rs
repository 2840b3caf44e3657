//! The guest's C library.
pub mod char_source;
pub mod crt;
pub mod crypto;
pub mod cxxabi;
pub mod division;
pub mod multibyte;
pub mod number_text;
pub mod process;
pub mod search;
pub mod stdlib;
pub mod text;
pub mod unwind_sjlj;
pub mod zlib;
