//! Where number conversions read their characters from: a C string in guest
//! memory, which is indexed, or a stream, which is read in order and can take
//! characters back.
use crate::mem::{GuestAddr, Mem};
use vstd::prelude::*;

verus! {

/// A supply of characters for the conversion functions.
pub trait CharSource {
    /// All characters: of a string, those from its start to the end of memory;
    /// of a stream, those already read and those to come.
    spec fn text(&self) -> Seq<u8>;

    /// How many characters of a stream have been read. Not used for a string.
    spec fn cursor(&self) -> int;

    /// Whether `getc` goes by the cursor and not by the index.
    spec fn is_stream(&self) -> bool;

    spec fn wf(&self) -> bool;

    /// Reads a character: of a string the one at `index`, of a stream the next
    /// one. An error signifies the end of a stream.
    fn getc(&mut self, index: u64) -> (r: Result<u8, ()>)
        requires
            old(self).wf(),
            !old(self).is_stream() ==> index < old(self).text().len(),
        ensures
            final(self).wf(),
            final(self).text() == old(self).text(),
            final(self).is_stream() == old(self).is_stream(),
            !old(self).is_stream() ==> {
                &&& r == Ok::<u8, ()>(old(self).text()[index as int])
                &&& final(self).cursor() == old(self).cursor()
            },
            old(self).is_stream() && old(self).cursor() < old(self).text().len() ==> {
                &&& r == Ok::<u8, ()>(old(self).text()[old(self).cursor()])
                &&& final(self).cursor() == old(self).cursor() + 1
            },
            old(self).is_stream() && old(self).cursor() >= old(self).text().len() ==> {
                &&& r is Err
                &&& final(self).cursor() == old(self).cursor()
            },
    ;

    /// Gives the character that was read last back to a stream. A string has
    /// no use for it.
    fn ungetc(&mut self, c: u8)
        requires
            old(self).wf(),
            old(self).is_stream() ==> {
                &&& 0 < old(self).cursor() <= old(self).text().len()
                &&& old(self).text()[old(self).cursor() - 1] == c
            },
        ensures
            final(self).wf(),
            final(self).text() == old(self).text(),
            final(self).is_stream() == old(self).is_stream(),
            final(self).cursor() == old(self).cursor() - (if old(self).is_stream() {
                1int
            } else {
                0
            }),
    ;
}

/// A string in guest memory.
pub struct CStr<'a> {
    pub mem: &'a Mem,
    pub start: GuestAddr,
}

impl<'a> CharSource for CStr<'a> {
    open spec fn text(&self) -> Seq<u8> {
        self.mem@.bytes.skip(self.start as int)
    }

    open spec fn cursor(&self) -> int {
        0
    }

    open spec fn is_stream(&self) -> bool {
        false
    }

    open spec fn wf(&self) -> bool {
        &&& self.mem.wf()
        &&& self.mem@.null_size <= self.start <= self.mem@.bytes.len()
    }

    fn getc(&mut self, index: u64) -> (r: Result<u8, ()>) {
        let addr: u32 = (self.start as u64 + index) as u32;
        Ok(self.mem.read_u8(addr))
    }

    fn ungetc(&mut self, c: u8) {
    }
}

/// A stream of bytes.
pub struct ByteStream {
    pub data: Vec<u8>,
    pub pos: usize,
}

impl CharSource for ByteStream {
    open spec fn text(&self) -> Seq<u8> {
        self.data@
    }

    open spec fn cursor(&self) -> int {
        self.pos as int
    }

    open spec fn is_stream(&self) -> bool {
        true
    }

    open spec fn wf(&self) -> bool {
        self.pos <= self.data@.len()
    }

    fn getc(&mut self, index: u64) -> (r: Result<u8, ()>) {
        if self.pos < self.data.len() {
            let c: u8 = self.data[self.pos];
            self.pos += 1;
            Ok(c)
        } else {
            Err(())
        }
    }

    fn ungetc(&mut self, c: u8) {
        self.pos -= 1;
    }
}

} // verus!
