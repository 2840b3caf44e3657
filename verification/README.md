# touchhle

The guest-facing runtime of a high-level emulator for old iPhone OS apps, written
in Verus. The functions of the library carry contracts that Verus proves. The
exception is the wrappers around outside crates and the standard library: their
contracts Verus believes, and what is proved of their callers rests on them.

- `src/mem.rs`, `src/environment.rs`: the guest's memory with its heap, its
  registers and environment variables.
- `src/libc/`: parts of the guest's C library. Number conversions, allocation,
  random numbers, division, wide strings, environment variables, `bsearch`, zlib's
  `gz*` files, CommonCrypto, and the SjLj exception unwinder.
- `src/objc/`, `src/frameworks/`: reference counting, display links, stubbed
  classes, and JellyCar 3's music.
- `src/window/`: the emulated device, input events, rotation, pixels on their way
  to the screen, deep links, and the import of apps from .ipa files.
- `app/`: the program around the library. SDL, OpenGL, UIKit, files, and what deals
  in floating point.
- `tests/`: tests of the library.

Where the guest must run (a comparison function, a personality routine, an
Objective-C message), the library is a machine: it says what to call, and takes
what the call returned.

Decompression, digests and archives come from `flate2`, `md-5`, `sha1`, `sha2` and
`zip`. The doc comments of the wrappers around them say what is claimed of those
crates and not proved.
