use vstd::prelude::*;
use vstd::utf8::valid_utf8;
use crate::checksums::{crc8_valid, crc8_inserted, has_valid_crc8_32, insert_crc8_32};
use crate::text::str_from_utf8;

verus! {

/// Length of one command line, CRC byte included.
pub const CMD_LEN: usize = 32;

/// Generator polynomial of the command CRC-8.
pub const CMD_POLY: u8 = 0xD5;

/// Byte that ends a command line.
pub const LINE_END: u8 = 0x0A;

/// Failures of the command link.
pub enum UartError {
    WriteError,
    ReadError,
    WouldBlock,
    BufferOverflow([u8; 32]),
    Utf8Error([u8; 32]),
    AckMismatch([u8; 32]),
}

/// What one attempt to read the UART gave.
pub enum RxEvent {
    Byte(u8),
    WouldBlock,
    Failed,
}

/// Thirty-two zero bytes.
pub open spec fn zero_line() -> Seq<u8> {
    Seq::new(32, |i: int| 0u8)
}

/// Command text padded with zero bytes to a full line.
pub open spec fn padded(text: Seq<u8>) -> Seq<u8> {
    text + Seq::new((32 - text.len()) as nat, |i: int| 0u8)
}

/// The text of a line: its bytes up to the first zero byte.
pub open spec fn line_text(line: Seq<u8>) -> Seq<u8> {
    if exists|i: int| 0 <= i < line.len() && line[i] == 0 {
        line.take(choose|i: int| 0 <= i < line.len() && line[i] == 0 && forall|k: int| 0 <= k < i ==> line[k] != 0)
    } else {
        line
    }
}

/// Builds the line sent for `text`: the text padded with zeros to 32 bytes,
/// then the last byte replaced by the CRC-8 (polynomial `0xD5`) check byte.
/// Text longer than a line is refused.
pub fn frame_command(text: &[u8]) -> (r: Result<[u8; 32], UartError>)
    ensures
        text@.len() > CMD_LEN <==> r is Err,
        r matches Err(e) ==> e matches UartError::BufferOverflow(z) && z@ == zero_line(),
        r matches Ok(line) ==> {
            &&& line@ == crc8_inserted(padded(text@), CMD_POLY)
            &&& line@.subrange(0, 31) == padded(text@).subrange(0, 31)
            &&& crc8_valid(line@, CMD_POLY)
        },
{
    let n = text.len();
    if n > CMD_LEN {
        let z = [0u8; 32];
        assert(z@ =~= zero_line());
        return Err(UartError::BufferOverflow(z));
    }
    let mut buf = [0u8; 32];
    let mut i: usize = 0;
    while i < n
        invariant
            n == text@.len(),
            n <= 32,
            i <= n,
            buf@.len() == 32,
            forall|k: int| 0 <= k < i ==> buf@[k] == text@[k],
            forall|k: int| i <= k < 32 ==> buf@[k] == 0u8,
        decreases n - i,
    {
        buf[i] = text[i];
        i += 1;
    }
    assert(buf@ =~= padded(text@));
    Ok(insert_crc8_32(buf, CMD_POLY))
}

/// Whether two byte strings are equal.
fn same_bytes(a: &[u8], b: &[u8]) -> (r: bool)
    ensures
        r == (a@ == b@),
{
    if a.len() != b.len() {
        return false;
    }
    let n = a.len();
    let mut i: usize = 0;
    while i < n
        invariant
            n == a@.len(),
            n == b@.len(),
            i <= n,
            forall|k: int| 0 <= k < i ==> a@[k] == b@[k],
        decreases n - i,
    {
        if a[i] != b[i] {
            return false;
        }
        i += 1;
    }
    assert(a@ =~= b@);
    true
}

/// Length of the text of `line`: the number of bytes before its first zero
/// byte, or the whole line when it has none.
fn text_len(line: &[u8; 32]) -> (len: usize)
    ensures
        len <= 32,
        line@.subrange(0, len as int) == line_text(line@),
{
    let mut len: usize = 0;
    while len < 32 && line[len] != 0
        invariant
            len <= 32,
            forall|k: int| 0 <= k < len ==> line@[k] != 0,
        decreases 32 - len,
    {
        len += 1;
    }
    proof {
        if len < 32 {
            assert(line@[len as int] == 0);
            let c = choose|i: int|
                0 <= i < line@.len() && line@[i] == 0 && forall|k: int| 0 <= k < i ==> line@[k] != 0;
            assert(c == len);
        } else {
            assert(line@.take(32) =~= line@);
        }
        assert(line@.subrange(0, len as int) =~= line_text(line@));
    }
    len
}

/// Judges the echo of a sent command: reply text (the bytes before the
/// first zero byte) that is not UTF-8 is an `Utf8Error`; text that differs
/// from what was sent is an `AckMismatch`; an exact echo is acknowledged.
pub fn check_reply(sent: &[u8], reply: [u8; 32]) -> (r: Result<(), UartError>)
    ensures
        r == if !valid_utf8(line_text(reply@)) {
            Err(UartError::Utf8Error(reply))
        } else if line_text(reply@) != sent@ {
            Err(UartError::AckMismatch(reply))
        } else {
            Ok(())
        },
{
    let len = text_len(&reply);
    let text = vstd::slice::slice_subrange(reply.as_slice(), 0, len);
    match str_from_utf8(text) {
        None => Err(UartError::Utf8Error(reply)),
        Some(_) => {
            if same_bytes(text, sent) {
                Ok(())
            } else {
                Err(UartError::AckMismatch(reply))
            }
        },
    }
}

/// The line that echoes a received one: the received text (the bytes before
/// the first zero byte) framed again as `frame_command` frames it. Text that
/// is not UTF-8 cannot be echoed and is an `Utf8Error` carrying the line.
pub fn echo_frame(line: [u8; 32]) -> (r: Result<[u8; 32], UartError>)
    ensures
        r matches Ok(echo) ==> valid_utf8(line_text(line@)) && echo@ == crc8_inserted(
            padded(line_text(line@)),
            CMD_POLY,
        ),
        r matches Err(e) ==> !valid_utf8(line_text(line@)) && e == UartError::Utf8Error(line),
{
    let len = text_len(&line);
    let text = vstd::slice::slice_subrange(line.as_slice(), 0, len);
    match str_from_utf8(text) {
        None => Err(UartError::Utf8Error(line)),
        Some(_) => frame_command(text),
    }
}

/// The line after `bytes` (none of them a line end) were stored from
/// position `index` on.
pub open spec fn stored(line: Seq<u8>, index: int, bytes: Seq<u8>) -> Seq<u8>
    decreases bytes.len(),
{
    if bytes.len() == 0 {
        line
    } else {
        stored(line.update(index, bytes[0]), index + 1, bytes.drop_first())
    }
}

/// Collects one command line byte by byte: bytes are stored in order until a
/// line end, then the CRC decides.
pub struct CommandReader {
    out: [u8; 32],
    index: usize,
}

impl CommandReader {
    /// The bytes stored so far (the rest of the line is as it started).
    pub closed spec fn line(&self) -> Seq<u8> {
        self.out@
    }

    /// Where the next byte goes.
    pub closed spec fn position(&self) -> nat {
        self.index as nat
    }

    /// A fresh reader: an all-zero line, filling from the front.
    pub fn new() -> (r: Self)
        ensures
            r.line() == zero_line(),
            r.position() == 0,
    {
        let r = CommandReader { out: [0u8; 32], index: 0 };
        assert(r.out@ =~= zero_line());
        r
    }

    /// Where the next byte goes.
    pub fn index(&self) -> (r: usize)
        ensures
            r == self.position(),
    {
        self.index
    }

    /// Takes one read event. A line end ends the line: `Ok` with the number of
    /// bytes read and the line if its CRC is valid, `AckMismatch` with it otherwise. A failed read is a
    /// `ReadError`; a read that would block changes nothing. Any other byte
    /// is stored and `None` asks for more. A line holds at most 32 bytes, so
    /// a 33rd byte before the line end is ruled out.
    pub fn feed(&mut self, ev: RxEvent) -> (r: Option<Result<(usize, [u8; 32]), UartError>>)
        requires
            ev matches RxEvent::Byte(b) && b != LINE_END ==> old(self).position() < CMD_LEN,
        ensures
            match ev {
                RxEvent::Byte(b) => if b == LINE_END {
                    &&& *final(self) == *old(self)
                    &&& if crc8_valid(old(self).line(), CMD_POLY) {
                        r matches Some(Ok((len, l))) && len == old(self).position() && l@ == old(self).line()
                    } else {
                        r matches Some(Err(UartError::AckMismatch(l))) && l@ == old(self).line()
                    }
                } else {
                    &&& r is None
                    &&& final(self).line() == old(self).line().update(old(self).position() as int, b)
                    &&& final(self).position() == old(self).position() + 1
                },
                RxEvent::WouldBlock => r is None && *final(self) == *old(self),
                RxEvent::Failed => r matches Some(Err(UartError::ReadError)) && *final(self) == *old(self),
            },
    {
        match ev {
            RxEvent::Byte(b) => {
                if b == LINE_END {
                    if has_valid_crc8_32(self.out, CMD_POLY) {
                        Some(Ok((self.index, self.out)))
                    } else {
                        Some(Err(UartError::AckMismatch(self.out)))
                    }
                } else {
                    self.out[self.index] = b;
                    self.index += 1;
                    None
                }
            },
            RxEvent::WouldBlock => None,
            RxEvent::Failed => Some(Err(UartError::ReadError)),
        }
    }
}

proof fn lemma_stored_prefix(line: Seq<u8>, index: int, bytes: Seq<u8>)
    requires
        0 <= index,
        index + bytes.len() <= line.len(),
    ensures
        stored(line, index, bytes) == line.subrange(0, index) + bytes + line.subrange(
            index + bytes.len(),
            line.len() as int,
        ),
    decreases bytes.len(),
{
    if bytes.len() == 0 {
        assert(line.subrange(0, index) + bytes + line.subrange(index, line.len() as int) =~= line);
    } else {
        let l2 = line.update(index, bytes[0]);
        lemma_stored_prefix(l2, index + 1, bytes.drop_first());
        assert(l2.subrange(0, index + 1) + bytes.drop_first() + l2.subrange(
            index + 1 + bytes.drop_first().len(),
            l2.len() as int,
        ) =~= line.subrange(0, index) + bytes + line.subrange(
            index + bytes.len(),
            line.len() as int,
        ));
    }
}

/// Storing one more byte after `bytes` is what `CommandReader::feed` does:
/// `stored` is the line a reader holds after being fed those bytes.
pub proof fn lemma_stored_push(line: Seq<u8>, index: int, bytes: Seq<u8>, b: u8)
    requires
        0 <= index,
        index + bytes.len() < line.len(),
    ensures
        stored(line, index, bytes.push(b)) == stored(line, index, bytes).update(
            index + bytes.len(),
            b,
        ),
{
    lemma_stored_prefix(line, index, bytes.push(b));
    lemma_stored_prefix(line, index, bytes);
    assert(stored(line, index, bytes.push(b)) =~= stored(line, index, bytes).update(
        index + bytes.len(),
        b,
    ));
}

/// A line built by `frame_command` and sent byte by byte, then a line end,
/// is stored intact by a fresh reader and accepted, as long as no byte of it
/// is itself a line end.
pub proof fn lemma_framed_command_accepted(line: Seq<u8>)
    requires
        line.len() == CMD_LEN,
        crc8_valid(line, CMD_POLY),
        forall|i: int| 0 <= i < line.len() ==> line[i] != LINE_END,
    ensures
        stored(zero_line(), 0, line) == line,
        crc8_valid(stored(zero_line(), 0, line), CMD_POLY),
{
    lemma_stored_prefix(zero_line(), 0, line);
    assert(zero_line().subrange(0, 0) + line + zero_line().subrange(32, 32) =~= line);
}

/// The text of a line built by `frame_command` from at most 30 bytes with
/// no zero byte is exactly those bytes: the CRC byte at the end never reaches
/// into the text, and the padding stops it.
pub proof fn lemma_framed_command_text(text: Seq<u8>, line: Seq<u8>)
    requires
        text.len() <= 30,
        forall|i: int| 0 <= i < text.len() ==> text[i] != 0,
        line.len() == CMD_LEN,
        line.subrange(0, 31) == padded(text).subrange(0, 31),
    ensures
        line_text(line) == text,
{
    let n = text.len() as int;
    assert(line[n] == line.subrange(0, 31)[n]);
    assert(padded(text)[n] == 0);
    assert forall|k: int| 0 <= k < n implies line[k] == text[k] by {
        assert(line[k] == line.subrange(0, 31)[k]);
        assert(padded(text)[k] == text[k]);
    }
    assert(exists|i: int| 0 <= i < line.len() && line[i] == 0);
    let c = choose|i: int|
        0 <= i < line.len() && line[i] == 0 && forall|k: int| 0 <= k < i ==> line[k] != 0;
    assert(line[n] == 0 && forall|k: int| 0 <= k < n ==> line[k] != 0);
    if c < n {
        assert(line[c] == text[c]);
    }
    assert(c == n);
    assert(line.take(n) =~= text);
}

/// The text of a line is the run of nonzero bytes it starts with: every byte
/// of the text is nonzero, the text is where the line starts, and right after
/// it the line either ends or holds a zero byte.
pub proof fn lemma_line_text_is_leading_run(line: Seq<u8>)
    ensures
        line_text(line).len() <= line.len(),
        line_text(line) == line.take(line_text(line).len() as int),
        forall|k: int| 0 <= k < line_text(line).len() ==> #[trigger] line_text(line)[k] != 0,
        line_text(line).len() < line.len() ==> line[line_text(line).len() as int] == 0,
{
    if exists|i: int| 0 <= i < line.len() && line[i] == 0 {
        let z = choose|i: int| 0 <= i < line.len() && line[i] == 0;
        lemma_first_zero(line, z);
        let c = choose|i: int|
            0 <= i < line.len() && line[i] == 0 && forall|k: int| 0 <= k < i ==> line[k] != 0;
        assert(line_text(line) == line.take(c));
    } else {
        assert(line.take(line.len() as int) =~= line);
    }
}

proof fn lemma_first_zero(line: Seq<u8>, z: int)
    requires
        0 <= z < line.len(),
        line[z] == 0,
    ensures
        exists|i: int| 0 <= i <= z && line[i] == 0 && forall|k: int| 0 <= k < i ==> line[k] != 0,
    decreases z,
{
    if exists|k: int| 0 <= k < z && line[k] == 0 {
        let k = choose|k: int| 0 <= k < z && line[k] == 0;
        lemma_first_zero(line, k);
    } else {
        assert(0 <= z <= z && line[z] == 0 && forall|k: int| 0 <= k < z ==> line[k] != 0);
    }
}

/// A padded command is 32 bytes: the text first, then zeros to the end.
pub proof fn lemma_padded_layout(text: Seq<u8>)
    requires
        text.len() <= 32,
    ensures
        padded(text).len() == 32,
        forall|i: int| 0 <= i < text.len() ==> #[trigger] padded(text)[i] == text[i],
        forall|i: int| text.len() <= i < 32 ==> #[trigger] padded(text)[i] == 0,
{
}

} // verus!
