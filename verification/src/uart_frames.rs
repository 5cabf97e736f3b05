use vstd::prelude::*;
use vstd::utf8::{valid_utf8, decode_utf8};
use crate::checksums::{crc8_smbus, checksum_smbus};
use crate::text::str_from_utf8;

verus! {

/// Size of the line buffer.
pub const LINE_BUF_LEN: usize = 64;

/// Byte that ends a binary line.
pub const BYTES_END: u8 = 0x0A;

/// Byte that ends a text line.
pub const TEXT_END: u8 = 0x09;

/// Failures of a line read; a mismatch carries the data it was about.
pub enum UartError<'a> {
    WriteError,
    ReadError,
    WouldBlock,
    BufferOverflow,
    Utf8Error([u8; 64]),
    AckMismatch(&'a [u8]),
}

/// A line that passed its check, as bytes or as text.
pub enum Info<'a> {
    Bytes(&'a [u8]),
    Str(&'a str),
}

/// What one received byte did to a line read.
pub enum LineStep {
    /// Stored; read on.
    More,
    /// The buffer is full and the byte does not fit.
    Overflow,
    /// A line end arrived.
    Ended,
}

/// The data part of a line whose write position is `idx`: every stored byte
/// but the last one.
pub open spec fn line_data(buf: Seq<u8>, idx: int) -> Seq<u8> {
    buf.subrange(0, idx - 1)
}

/// Stores received bytes into a line buffer until a line end. The data of a
/// finished line is the stored bytes but the last; the byte at the write
/// position must equal the CRC-8/SMBUS of that data.
pub struct LineReader {
    buf: [u8; 64],
    idx: usize,
    term: u8,
}

impl LineReader {
    /// The buffer's bytes.
    pub closed spec fn contents(&self) -> Seq<u8> {
        self.buf@
    }

    /// Where the next byte goes.
    pub closed spec fn position(&self) -> nat {
        self.idx as nat
    }

    /// The line end received so far, or 0 while none has arrived.
    pub closed spec fn terminator(&self) -> u8 {
        self.term
    }

    /// The position lies within the buffer.
    pub closed spec fn wf(&self) -> bool {
        self.idx <= LINE_BUF_LEN
    }

    /// Starts a read into `buf`, which keeps its old contents until they are
    /// overwritten.
    pub fn new(buf: [u8; 64]) -> (r: Self)
        ensures
            r.wf(),
            r.contents() == buf@,
            r.position() == 0,
            r.terminator() == 0,
    {
        LineReader { buf, idx: 0, term: 0 }
    }

    /// Takes one received byte: a line end (`\n` or `\t`) is recorded and
    /// ends the line; otherwise the byte is stored, unless the buffer is full.
    pub fn feed_byte(&mut self, b: u8) -> (r: LineStep)
        requires
            old(self).wf(),
        ensures
            final(self).wf(),
            if b == BYTES_END || b == TEXT_END {
                &&& r is Ended
                &&& final(self).terminator() == b
                &&& final(self).contents() == old(self).contents()
                &&& final(self).position() == old(self).position()
            } else if old(self).position() >= LINE_BUF_LEN {
                &&& r is Overflow
                &&& *final(self) == *old(self)
            } else {
                &&& r is More
                &&& final(self).contents() == old(self).contents().update(old(self).position() as int, b)
                &&& final(self).position() == old(self).position() + 1
                &&& final(self).terminator() == old(self).terminator()
            },
    {
        if b == BYTES_END || b == TEXT_END {
            self.term = b;
            LineStep::Ended
        } else if self.idx >= LINE_BUF_LEN {
            LineStep::Overflow
        } else {
            self.buf[self.idx] = b;
            self.idx += 1;
            LineStep::More
        }
    }

    /// Judges a finished line. The data is every stored byte but the last; if
    /// the byte at the write position is not its CRC-8/SMBUS the line is an
    /// `AckMismatch`, otherwise a `\n` line gives the bytes and a `\t` line
    /// gives the text. `None` where no verdict exists: no line end yet,
    /// nothing stored, a write position at the end of the buffer, or a text
    /// line that passes its check but is not UTF-8.
    pub fn finish(&self) -> (r: Option<Result<Info<'_>, UartError<'_>>>)
        requires
            self.wf(),
        ensures
            ({
                let data = line_data(self.contents(), self.position() as int);
                if !(self.terminator() == BYTES_END || self.terminator() == TEXT_END) || self.position()
                    == 0 || self.position() >= LINE_BUF_LEN {
                    r is None
                } else if self.contents()[self.position() as int] != crc8_smbus(data) {
                    r matches Some(Err(UartError::AckMismatch(d))) && d@ == data
                } else if self.terminator() == BYTES_END {
                    r matches Some(Ok(Info::Bytes(d))) && d@ == data
                } else if valid_utf8(data) {
                    r matches Some(Ok(Info::Str(s))) && s@ == decode_utf8(data)
                } else {
                    r is None
                }
            }),
    {
        if !(self.term == BYTES_END || self.term == TEXT_END) || self.idx == 0 || self.idx
            >= LINE_BUF_LEN {
            return None;
        }
        let data = vstd::slice::slice_subrange(self.buf.as_slice(), 0, self.idx - 1);
        let crc = checksum_smbus(data);
        if self.buf[self.idx] != crc {
            return Some(Err(UartError::AckMismatch(data)));
        }
        if self.term == BYTES_END {
            Some(Ok(Info::Bytes(data)))
        } else {
            match str_from_utf8(data) {
                Some(s) => Some(Ok(Info::Str(s))),
                None => None,
            }
        }
    }
}

/// The data of a line written up to position `idx` is its first `idx - 1`
/// bytes, in order: everything stored but the last byte.
pub proof fn lemma_line_data_layout(buf: Seq<u8>, idx: int)
    requires
        1 <= idx <= buf.len(),
    ensures
        line_data(buf, idx).len() == idx - 1,
        forall|k: int| 0 <= k < idx - 1 ==> #[trigger] line_data(buf, idx)[k] == buf[k],
{
}

} // verus!
