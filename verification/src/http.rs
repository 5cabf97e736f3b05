use vstd::prelude::*;

verus! {

/// Size of the buffer a request header is read into.
pub const REQUEST_BUF_LEN: usize = 1024;

/// `needle` occurs in `hay` starting at `i`.
pub open spec fn occurs_at(hay: Seq<u8>, needle: Seq<u8>, i: int) -> bool {
    0 <= i && i + needle.len() <= hay.len() && hay.subrange(i, i + needle.len()) == needle
}

/// `needle` occurs somewhere in `hay`.
pub open spec fn occurs(hay: Seq<u8>, needle: Seq<u8>) -> bool {
    exists|i: int| occurs_at(hay, needle, i)
}

/// The blank line that ends an HTTP header: `\r\n\r\n`.
pub open spec fn header_end() -> Seq<u8> {
    seq![0x0Du8, 0x0Au8, 0x0Du8, 0x0Au8]
}

/// `Upgrade: websocket` with the first letter in upper (`true`) or lower case.
pub open spec fn upgrade_line(upper: bool) -> Seq<u8> {
    seq![
        if upper { 0x55u8 } else { 0x75u8 },
        0x70u8, 0x67u8, 0x72u8, 0x61u8, 0x64u8, 0x65u8, 0x3Au8, 0x20u8,
        0x77u8, 0x65u8, 0x62u8, 0x73u8, 0x6Fu8, 0x63u8, 0x6Bu8, 0x65u8, 0x74u8,
    ]
}

/// Whether `needle` occurs in `hay`.
pub fn contains(hay: &[u8], needle: &[u8]) -> (r: bool)
    ensures
        r == occurs(hay@, needle@),
{
    let n = hay.len();
    let m = needle.len();
    if m > n {
        proof {
            assert forall|i: int| !occurs_at(hay@, needle@, i) by {}
        }
        return false;
    }
    let mut i: usize = 0;
    while i <= n - m
        invariant
            n == hay@.len(),
            m == needle@.len(),
            m <= n,
            i <= n - m + 1,
            forall|k: int| 0 <= k < i ==> !occurs_at(hay@, needle@, k),
        decreases n - m + 1 - i,
    {
        let mut j: usize = 0;
        let mut same = true;
        while j < m
            invariant
                n == hay@.len(),
                m == needle@.len(),
                i + m <= n,
                j <= m,
                same == (forall|k: int| 0 <= k < j ==> hay@[i + k] == needle@[k]),
            decreases m - j,
        {
            if hay[i + j] != needle[j] {
                same = false;
            }
            j += 1;
        }
        if same {
            proof {
                assert(hay@.subrange(i as int, i + m) =~= needle@);
                assert(occurs_at(hay@, needle@, i as int));
            }
            return true;
        }
        proof {
            assert(!occurs_at(hay@, needle@, i as int)) by {
                if hay@.subrange(i as int, i + m) == needle@ {
                    assert forall|k: int| 0 <= k < m implies hay@[i + k] == needle@[k] by {
                        assert(hay@.subrange(i as int, i + m)[k] == hay@[i + k]);
                    }
                }
            }
        }
        i += 1;
    }
    proof {
        assert forall|k: int| !occurs_at(hay@, needle@, k) by {
            if 0 <= k && k + m <= n {
                assert(k < i);
            }
        }
    }
    false
}

/// Whether the bytes read so far hold the blank line that ends the header.
pub fn request_complete(request: &[u8]) -> (r: bool)
    ensures
        r == occurs(request@, header_end()),
{
    let end = [0x0Du8, 0x0Au8, 0x0Du8, 0x0Au8];
    assert(end@ =~= header_end());
    contains(request, end.as_slice())
}

/// Whether the request asks to upgrade to a WebSocket (`Upgrade: websocket`
/// or `upgrade: websocket` anywhere in it).
pub fn wants_websocket(request: &[u8]) -> (r: bool)
    ensures
        r == (occurs(request@, upgrade_line(true)) || occurs(request@, upgrade_line(false))),
{
    let upper = [
        0x55u8, 0x70u8, 0x67u8, 0x72u8, 0x61u8, 0x64u8, 0x65u8, 0x3Au8, 0x20u8,
        0x77u8, 0x65u8, 0x62u8, 0x73u8, 0x6Fu8, 0x63u8, 0x6Bu8, 0x65u8, 0x74u8,
    ];
    let lower = [
        0x75u8, 0x70u8, 0x67u8, 0x72u8, 0x61u8, 0x64u8, 0x65u8, 0x3Au8, 0x20u8,
        0x77u8, 0x65u8, 0x62u8, 0x73u8, 0x6Fu8, 0x63u8, 0x6Bu8, 0x65u8, 0x74u8,
    ];
    assert(upper@ =~= upgrade_line(true));
    assert(lower@ =~= upgrade_line(false));
    contains(request, upper.as_slice()) || contains(request, lower.as_slice())
}

/// What one socket read gave while the header was being collected.
pub enum ReadResult {
    /// The peer closed the connection.
    Eof,
    /// This many bytes arrived.
    Data(usize),
    /// The read failed.
    Failed,
}

/// What to do after a read.
pub enum RequestStep {
    /// Read on from this fill level.
    Continue(usize),
    /// Stop reading; the request is the first `n` bytes (0: nothing usable).
    Stop(usize),
}

/// Collecting a request header: decides after each read whether to go on.
/// Reading stops at end of stream, on a failed read, or once the blank line
/// has arrived; a header that fills the whole buffer is given up (length 0).
pub fn after_read(buffer: &[u8], pos: usize, result: ReadResult) -> (r: RequestStep)
    requires
        buffer@.len() == REQUEST_BUF_LEN,
        pos < REQUEST_BUF_LEN,
        result matches ReadResult::Data(n) ==> n <= REQUEST_BUF_LEN - pos,
    ensures
        match result {
            ReadResult::Eof => r == RequestStep::Stop(pos),
            ReadResult::Failed => r == RequestStep::Stop(pos),
            ReadResult::Data(n) => if n == 0 {
                r == RequestStep::Stop(pos)
            } else if occurs(buffer@.subrange(0, pos + n), header_end()) {
                r == RequestStep::Stop((pos + n) as usize)
            } else if pos + n >= REQUEST_BUF_LEN {
                r == RequestStep::Stop(0)
            } else {
                r == RequestStep::Continue((pos + n) as usize)
            },
        },
{
    match result {
        ReadResult::Eof => RequestStep::Stop(pos),
        ReadResult::Failed => RequestStep::Stop(pos),
        ReadResult::Data(n) => {
            if n == 0 {
                RequestStep::Stop(pos)
            } else {
                let filled = pos + n;
                let read = vstd::slice::slice_subrange(buffer, 0, filled);
                if request_complete(read) {
                    RequestStep::Stop(filled)
                } else if filled >= REQUEST_BUF_LEN {
                    RequestStep::Stop(0)
                } else {
                    RequestStep::Continue(filled)
                }
            }
        },
    }
}

/// `needle` occurs in `hay` exactly when `hay` is some prefix, then `needle`,
/// then some suffix, wherever in `hay` that is.
pub proof fn lemma_occurs_iff_split(hay: Seq<u8>, needle: Seq<u8>)
    ensures
        occurs(hay, needle) <==> exists|a: Seq<u8>, b: Seq<u8>| hay == #[trigger] (a + needle + b),
{
    if occurs(hay, needle) {
        let i = choose|i: int| occurs_at(hay, needle, i);
        let a = hay.take(i);
        let b = hay.skip(i + needle.len());
        assert(hay =~= a + needle + b);
    }
    if exists|a: Seq<u8>, b: Seq<u8>| hay == #[trigger] (a + needle + b) {
        let (a, b) = choose|a: Seq<u8>, b: Seq<u8>| hay == #[trigger] (a + needle + b);
        assert(hay.subrange(a.len() as int, a.len() + needle.len() as int) =~= needle);
        assert(occurs_at(hay, needle, a.len() as int));
    }
}

/// Whatever comes before and after it, a needle is found in a haystack that
/// holds it; in particular a header whose blank line comes after any number of
/// bytes is complete.
pub proof fn lemma_occurs_anywhere(before: Seq<u8>, needle: Seq<u8>, after: Seq<u8>)
    ensures
        occurs(before + needle + after, needle),
        occurs(before + header_end(), header_end()),
{
    let hay = before + needle + after;
    assert(hay.subrange(before.len() as int, before.len() + needle.len() as int) =~= needle);
    assert(occurs_at(hay, needle, before.len() as int));
    let h2 = before + header_end();
    assert(h2.subrange(before.len() as int, before.len() + 4int) =~= header_end());
    assert(occurs_at(h2, header_end(), before.len() as int));
}

/// A haystack shorter than the needle never holds it, and adding bytes around a
/// haystack that holds the needle keeps it there.
pub proof fn lemma_occurs_grows(hay: Seq<u8>, needle: Seq<u8>, before: Seq<u8>, after: Seq<u8>)
    ensures
        hay.len() < needle.len() ==> !occurs(hay, needle),
        occurs(hay, needle) ==> occurs(before + hay + after, needle),
{
    if occurs(hay, needle) {
        let i = choose|i: int| occurs_at(hay, needle, i);
        let big = before + hay + after;
        assert(big.subrange(before.len() + i, before.len() + i + needle.len()) =~= hay.subrange(
            i,
            i + needle.len(),
        ));
        assert(occurs_at(big, needle, before.len() + i));
    }
}

} // verus!
