//! JellyCar 3 music shim: stage 1 of the FMOD-to-OpenAL audio bridge.
//!
//! FMOD is fully stubbed for JC3, so the game runs silently. This module restores
//! *music* by hooking the highest-level entry point,
//! `Walaber::SoundManager::playMusic(int track)` at guest address `0x101aac`, and
//! playing the matching MP3 through OpenAL instead of FMOD. Decoding the file and
//! talking to OpenAL is the caller's part.
use crate::environment::Environment;
use crate::libc::text::{decimal, push_decimal, push_str};
use crate::mem::{le16_bytes, GuestAddr, MemState};
use vstd::prelude::*;
use vstd::string::*;

verus! {

/// Guest address of `Walaber::SoundManager::playMusic(int)` (Thumb code).
pub const PLAY_MUSIC_ADDR: u32 = 0x101aac;

/// The size of the code that the hook replaces.
pub const HOOK_SIZE: u32 = 8;

/// No track.
pub const NO_TRACK: i32 = -1;

/// What is playing: the names of the OpenAL source and buffer (0 = none), and
/// the index of the track.
#[derive(Clone, Copy, Debug, PartialEq, Eq, Structural)]
pub struct Music {
    pub source: u32,
    pub buffer: u32,
    pub track: i32,
}

impl Default for Music {
    fn default() -> (r: Music)
        ensures
            r == (Music { source: 0, buffer: 0, track: NO_TRACK }),
    {
        Music { source: 0, buffer: 0, track: NO_TRACK }
    }
}

/// Memory after the hook was installed.
pub open spec fn hooked(mem: MemState, stub_addr: GuestAddr) -> MemState {
    mem.write(PLAY_MUSIC_ADDR as int, le16_bytes(0x4b00)).write(
        PLAY_MUSIC_ADDR + 2,
        le16_bytes(0x4718),
    ).write_u32(PLAY_MUSIC_ADDR + 4, stub_addr)
}

/// Install the JC3 music hook. Call exactly once, only for
/// `com.disney.JellyCar3`, after the FMOD bypass stubs are written.
///
/// `stub_addr` is the address of an ARM-mode host trampoline (`svc <idx>; bx lr`)
/// that runs the host's implementation of playMusic and returns to LR.
///
/// Returns the range of guest code that has changed: its start and its size.
pub fn install_music_hook(env: &mut Environment, stub_addr: GuestAddr) -> (r: (GuestAddr, u32))
    requires
        old(env).wf(),
        old(env).mem@.valid(PLAY_MUSIC_ADDR as int, HOOK_SIZE as int),
    ensures
        r == (PLAY_MUSIC_ADDR, HOOK_SIZE),
        final(env).wf(),
        final(env).mem@ == hooked(old(env).mem@, stub_addr),
        *final(env) == (Environment { mem: final(env).mem, ..*old(env) }),
{
    // playMusic is Thumb code, but the trampoline is ARM. Overwrite playMusic's
    // entry with an 8-byte Thumb veneer that switches to ARM WITHOUT touching
    // LR (so the trampoline's `bx lr` returns to playMusic's caller):
    //   ldr r3, [pc, #0]   ; 0x4b00  -> r3 = stub_addr (literal at +4)
    //   bx  r3             ; 0x4718  -> branch to ARM stub, switches to ARM
    //   .word stub_addr    ; ARM address (bit 0 = 0 -> ARM state)
    // r3 is caller-clobbered under AAPCS; r0 (this) and r1 (track), the only
    // inputs the host shim reads, are preserved.
    env.mem.write_u16(PLAY_MUSIC_ADDR, 0x4b00);
    env.mem.write_u16(PLAY_MUSIC_ADDR + 2, 0x4718);
    env.mem.write_u32(PLAY_MUSIC_ADDR + 4, stub_addr);
    (PLAY_MUSIC_ADDR, HOOK_SIZE)
}

/// The hook's code is the veneer, whatever was there, and nothing around it
/// changes.
pub proof fn law_hook_code(mem: MemState, stub_addr: GuestAddr)
    requires
        mem.wf(),
        mem.valid(PLAY_MUSIC_ADDR as int, HOOK_SIZE as int),
    ensures
        ({
            let post = hooked(mem, stub_addr);
            let at = PLAY_MUSIC_ADDR as int;
            &&& post.bytes_at(at, 4) == seq![0x00u8, 0x4b, 0x18, 0x47]
            &&& post.u32_at(at + 4) == stub_addr
            &&& forall|i: int|
                0 <= i < mem.bytes.len() && (i < at || at + HOOK_SIZE <= i) ==> post.bytes[i]
                    == mem.bytes[i]
        }),
{
    let at = PLAY_MUSIC_ADDR as int;
    let m1 = mem.write(at, le16_bytes(0x4b00)).write(at + 2, le16_bytes(0x4718));
    crate::mem::lemma_le32_roundtrip(m1.bytes, at + 4, stub_addr);
    assert(hooked(mem, stub_addr).bytes_at(at, 4) =~= seq![0x00u8, 0x4b, 0x18, 0x47]);
}

/// What a call of playMusic asks for.
pub enum MusicRequest {
    /// To stop what is playing.
    Stop,
    /// To go on with what is playing.
    Keep,
    /// To play the file with this path in the app's bundle instead.
    Play(Vec<u8>),
}

/// The path of a track's file in the app's bundle. JC3 ships song1.mp3 ..
/// song7.mp3 (track index 0..=6).
pub open spec fn song_path(track: int) -> Seq<u8> {
    "Content/Audio/Music/song".spec_bytes() + decimal((track + 1) as nat) + ".mp3".spec_bytes()
}

/// The value of a register as the guest's `int`.
pub open spec fn as_int(r: u32) -> int {
    if r <= i32::MAX {
        r as int
    } else {
        r - 0x1_0000_0000
    }
}

impl Music {
    /// Decides what the host implementation of `SoundManager::playMusic(int track)`
    /// does.
    ///
    /// ABI (ARM AAPCS / C++ thiscall): r0 = `SoundManager*` (unused), r1 = track
    /// index (0-based).
    pub fn request(&self, env: &Environment) -> (r: MusicRequest)
        ensures
            ({
                let track = as_int(env.regs@[1]);
                match r {
                    MusicRequest::Stop => !(0 <= track <= 6),
                    MusicRequest::Keep => 0 <= track <= 6 && self.track == track,
                    MusicRequest::Play(path) => {
                        &&& 0 <= track <= 6
                        &&& self.track != track
                        &&& path@ == song_path(track)
                    },
                }
            }),
    {
        // Any other value (e.g. a "stop music" sentinel) just stops playback.
        let track: u32 = env.regs[1];
        if track > 6 {
            return MusicRequest::Stop;
        }
        // Already playing this track? Leave it running to avoid restart stutter
        // (the game may re-issue playMusic for the current track).
        if self.track == track as i32 {
            return MusicRequest::Keep;
        }
        let mut path: Vec<u8> = Vec::new();
        push_str(&mut path, "Content/Audio/Music/song");
        assert(path@ =~= "Content/Audio/Music/song".spec_bytes());
        push_decimal(&mut path, track as u64 + 1);
        push_str(&mut path, ".mp3");
        MusicRequest::Play(path)
    }

    /// Forgets the current source and buffer. Those that are returned must be
    /// stopped and deleted, the source first.
    pub fn stop_current(&mut self) -> (r: (Option<u32>, Option<u32>))
        ensures
            *final(self) == (Music { source: 0, buffer: 0, ..*old(self) }),
            r.0 == if old(self).source != 0 {
                Some(old(self).source)
            } else {
                None
            },
            r.1 == if old(self).buffer != 0 {
                Some(old(self).buffer)
            } else {
                None
            },
    {
        let source: Option<u32> = if self.source != 0 {
            Some(self.source)
        } else {
            None
        };
        let buffer: Option<u32> = if self.buffer != 0 {
            Some(self.buffer)
        } else {
            None
        };
        self.source = 0;
        self.buffer = 0;
        (source, buffer)
    }

    /// Stops playback: as [Self::stop_current], and no track is the current one.
    pub fn stop(&mut self) -> (r: (Option<u32>, Option<u32>))
        ensures
            *final(self) == (Music { source: 0, buffer: 0, track: NO_TRACK }),
            r.0 == if old(self).source != 0 {
                Some(old(self).source)
            } else {
                None
            },
            r.1 == if old(self).buffer != 0 {
                Some(old(self).buffer)
            } else {
                None
            },
    {
        let r = self.stop_current();
        self.track = NO_TRACK;
        r
    }

    /// Notes that a track plays.
    pub fn started(&mut self, source: u32, buffer: u32, track: i32)
        ensures
            *final(self) == (Music { source, buffer, track }),
    {
        self.source = source;
        self.buffer = buffer;
        self.track = track;
    }
}

/// Whether a track's samples are uploaded as stereo.
pub fn is_stereo(channels_per_frame: u32) -> (r: bool)
    ensures
        r == (channels_per_frame >= 2),
{
    channels_per_frame >= 2
}

/// The songs are numbered from 1: each track has the file with the digit after its
/// own, so no two have the same. A register counts as the signed number with its
/// bits.
pub proof fn law_tracks_have_their_songs(track: int, r: u32)
    requires
        0 <= track <= 6,
    ensures
        song_path(track) == "Content/Audio/Music/song".spec_bytes() + seq![(0x31 + track) as u8]
            + ".mp3".spec_bytes(),
        i32::MIN <= as_int(r) <= i32::MAX,
        (as_int(r) - r) % 0x1_0000_0000 == 0,
{
}

/// What is asked for is played: a track that there is, and is not playing, by its own
/// file; the one that is playing goes on; and anything else stops the music.
pub proof fn law_music_follows_the_game(music: Music, env: Environment, r: MusicRequest)
    requires
        call_ensures(Music::request, (&music, &env), r),
    ensures
        r is Stop <==> env.regs@[1] > 6,
        r is Keep <==> env.regs@[1] <= 6 && music.track == env.regs@[1],
        r matches MusicRequest::Play(path) ==> env.regs@[1] <= 6 && path@
            == "Content/Audio/Music/song".spec_bytes() + seq![(0x31 + env.regs@[1]) as u8]
            + ".mp3".spec_bytes(),
{
    if env.regs@[1] <= 6 {
        law_tracks_have_their_songs(env.regs@[1] as int, 0);
    }
}

} // verus!
