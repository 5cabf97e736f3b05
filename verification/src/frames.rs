use vstd::prelude::*;
use crate::settings::FRAME_DELIM;

verus! {

/// Capacity of the receive buffer that collects one frame.
pub const RX_BUF_LEN: usize = 64;

/// Scans `s[..j]`: the frames closed by a delimiter so far, and the index
/// just past the last delimiter (0 when there is none).
pub open spec fn scan_frames(s: Seq<u8>, j: nat) -> (Seq<Seq<u8>>, int)
    decreases j,
{
    if j == 0 {
        (Seq::empty(), 0)
    } else {
        let prev = scan_frames(s, (j - 1) as nat);
        if s[j - 1] == FRAME_DELIM {
            (prev.0.push(s.subrange(prev.1, j - 1)), j as int)
        } else {
            prev
        }
    }
}

/// The frames that `s` completes, in order, without their delimiters.
pub open spec fn complete_frames(s: Seq<u8>) -> Seq<Seq<u8>> {
    scan_frames(s, s.len()).0
}

/// Index just past the last delimiter in `s` (0 when there is none).
pub open spec fn frames_end(s: Seq<u8>) -> int {
    scan_frames(s, s.len()).1
}

/// Frames written back out, each followed by the delimiter.
pub open spec fn joined(f: Seq<Seq<u8>>) -> Seq<u8>
    decreases f.len(),
{
    if f.len() == 0 {
        Seq::empty()
    } else {
        joined(f.drop_last()) + f.last().push(FRAME_DELIM)
    }
}

/// `s` holds no delimiter.
pub open spec fn delimiter_free(s: Seq<u8>) -> bool {
    forall|i: int| 0 <= i < s.len() ==> s[i] != FRAME_DELIM
}

/// The bytes of each buffer.
pub open spec fn vec_views(f: Seq<Vec<u8>>) -> Seq<Seq<u8>> {
    Seq::new(f.len(), |i: int| f[i]@)
}

proof fn lemma_scan(s: Seq<u8>, j: nat)
    requires
        j <= s.len(),
    ensures
        0 <= scan_frames(s, j).1 <= j,
        joined(scan_frames(s, j).0) == s.take(scan_frames(s, j).1),
        forall|k: int|
            0 <= k < scan_frames(s, j).0.len() ==> delimiter_free(#[trigger] scan_frames(s, j).0[k]),
        delimiter_free(s.subrange(scan_frames(s, j).1, j as int)),
    decreases j,
{
    if j > 0 {
        lemma_scan(s, (j - 1) as nat);
        let prev = scan_frames(s, (j - 1) as nat);
        let cur = scan_frames(s, j);
        if s[j - 1] == FRAME_DELIM {
            let fr = s.subrange(prev.1, j - 1);
            assert(fr =~= s.subrange(prev.1, (j - 1) as int));
            assert(cur.0.drop_last() =~= prev.0);
            assert(joined(cur.0) == joined(prev.0) + fr.push(FRAME_DELIM));
            assert(s.take(j as int) =~= s.take(prev.1) + fr.push(FRAME_DELIM));
            assert forall|k: int| 0 <= k < cur.0.len() implies delimiter_free(#[trigger] cur.0[k]) by {
                if k < prev.0.len() {
                    assert(cur.0[k] == prev.0[k]);
                }
            }
            assert(s.subrange(j as int, j as int) =~= Seq::<u8>::empty());
        } else {
            assert forall|i: int| 0 <= i < j - prev.1 implies s.subrange(prev.1, j as int)[i]
                != FRAME_DELIM by {
                if i < j - 1 - prev.1 {
                    assert(s.subrange(prev.1, j as int)[i] == s.subrange(prev.1, (j - 1) as int)[i]);
                }
            }
        }
    }
}

/// A byte stream is exactly its complete frames, each followed by the
/// delimiter, then the unfinished rest; no frame and not the rest contains the
/// delimiter.
pub proof fn lemma_frames_reassemble(s: Seq<u8>)
    ensures
        0 <= frames_end(s) <= s.len(),
        joined(complete_frames(s)) + s.subrange(frames_end(s), s.len() as int) == s,
        forall|k: int|
            0 <= k < complete_frames(s).len() ==> delimiter_free(#[trigger] complete_frames(s)[k]),
        delimiter_free(s.subrange(frames_end(s), s.len() as int)),
{
    lemma_scan(s, s.len());
    assert(s.take(frames_end(s)) + s.subrange(frames_end(s), s.len() as int) =~= s);
}

/// An unfinished frame that fills the whole buffer, which is dropped.
pub open spec fn overflows(all: Seq<u8>) -> bool {
    frames_end(all) == 0 && all.len() == RX_BUF_LEN
}

/// The bytes left waiting after a burst `data` arrives on top of `pending`.
pub open spec fn pending_after(pending: Seq<u8>, data: Seq<u8>) -> Seq<u8> {
    let all = pending + data;
    if overflows(all) {
        Seq::empty()
    } else {
        all.subrange(frames_end(all), all.len() as int)
    }
}

/// All frames delivered, in order, and the bytes left waiting after the
/// bursts arrive one by one on top of `pending`.
pub open spec fn bursts_run(pending: Seq<u8>, bursts: Seq<Seq<u8>>) -> (Seq<Seq<u8>>, Seq<u8>)
    decreases bursts.len(),
{
    if bursts.len() == 0 {
        (Seq::empty(), pending)
    } else {
        let prev = bursts_run(pending, bursts.drop_last());
        (prev.0 + complete_frames(prev.1 + bursts.last()), pending_after(prev.1, bursts.last()))
    }
}

/// No burst ends with an unfinished frame filling the whole buffer.
pub open spec fn never_overflows(pending: Seq<u8>, bursts: Seq<Seq<u8>>) -> bool
    decreases bursts.len(),
{
    bursts.len() == 0 || (never_overflows(pending, bursts.drop_last()) && !overflows(
        bursts_run(pending, bursts.drop_last()).1 + bursts.last(),
    ))
}

/// The bursts joined into one stream.
pub open spec fn stream_of(bursts: Seq<Seq<u8>>) -> Seq<u8>
    decreases bursts.len(),
{
    if bursts.len() == 0 {
        Seq::empty()
    } else {
        stream_of(bursts.drop_last()) + bursts.last()
    }
}

proof fn lemma_scan_prefix(u: Seq<u8>, v: Seq<u8>, j: nat)
    requires
        j <= u.len(),
    ensures
        scan_frames(u + v, j) == scan_frames(u, j),
    decreases j,
{
    if j > 0 {
        lemma_scan_prefix(u, v, (j - 1) as nat);
        let prev = scan_frames(u, (j - 1) as nat);
        assert((u + v)[j - 1] == u[j - 1]);
        assert((u + v).subrange(prev.1, j - 1) =~= u.subrange(prev.1, j - 1)) by {
            lemma_scan(u, (j - 1) as nat);
        }
    }
}

proof fn lemma_scan_quiet(s: Seq<u8>, a: nat, b: nat)
    requires
        a <= b <= s.len(),
        forall|i: int| a <= i < b ==> s[i] != FRAME_DELIM,
    ensures
        scan_frames(s, b) == scan_frames(s, a),
    decreases b,
{
    if b > a {
        lemma_scan_quiet(s, a, (b - 1) as nat);
    }
}

proof fn lemma_scan_split(u: Seq<u8>, v: Seq<u8>, j: nat)
    requires
        scan_frames(u, u.len()).1 == u.len(),
        j <= v.len(),
    ensures
        scan_frames(u + v, u.len() + j) == (
            scan_frames(u, u.len()).0 + scan_frames(v, j).0,
            u.len() + scan_frames(v, j).1,
        ),
    decreases j,
{
    if j == 0 {
        lemma_scan_prefix(u, v, u.len());
        assert(scan_frames(u, u.len()).0 + Seq::<Seq<u8>>::empty() =~= scan_frames(u, u.len()).0);
    } else {
        lemma_scan_split(u, v, (j - 1) as nat);
        lemma_scan(v, (j - 1) as nat);
        let pv = scan_frames(v, (j - 1) as nat);
        assert((u + v)[u.len() + j - 1] == v[j - 1]);
        if v[j - 1] == FRAME_DELIM {
            assert((u + v).subrange(u.len() + pv.1, u.len() + j - 1) =~= v.subrange(pv.1, j - 1));
            assert((scan_frames(u, u.len()).0 + pv.0).push(v.subrange(pv.1, j - 1)) =~= scan_frames(
                u,
                u.len(),
            ).0 + pv.0.push(v.subrange(pv.1, j - 1)));
        }
    }
}

/// Appending a burst to a stream: the frames of the longer stream are those
/// of the stream so far followed by the frames of its unfinished rest joined
/// with the burst, and the unfinished part is measured from there.
proof fn lemma_frames_extend(s: Seq<u8>, d: Seq<u8>)
    ensures
        ({
            let e = frames_end(s);
            let v = s.subrange(e, s.len() as int) + d;
            &&& complete_frames(s + d) == complete_frames(s) + complete_frames(v)
            &&& frames_end(s + d) == e + frames_end(v)
            &&& (s + d).subrange(frames_end(s + d), (s + d).len() as int) == v.subrange(
                frames_end(v),
                v.len() as int,
            )
        }),
{
    let e = frames_end(s);
    lemma_scan(s, s.len());
    let u = s.take(e);
    let v = s.subrange(e, s.len() as int) + d;
    assert forall|i: int| e <= i < s.len() implies s[i] != FRAME_DELIM by {
        assert(s.subrange(e, s.len() as int)[i - e] == s[i]);
    }
    lemma_scan_quiet(s, e as nat, s.len());
    assert(s =~= u + s.subrange(e, s.len() as int));
    lemma_scan_prefix(u, s.subrange(e, s.len() as int), e as nat);
    assert(u.len() == e);
    assert(s + d =~= u + v);
    lemma_scan_split(u, v, v.len());
    lemma_scan(v, v.len());
    assert((s + d).subrange(frames_end(s + d), (s + d).len() as int) =~= v.subrange(
        frames_end(v),
        v.len() as int,
    ));
}

/// However a stream is cut into bursts, as long as no unfinished frame ever
/// fills the whole buffer, every frame of the stream comes out exactly once
/// and in order, and what waits is the stream's unfinished rest.
pub proof fn lemma_bursts_deliver_stream(bursts: Seq<Seq<u8>>)
    requires
        never_overflows(Seq::empty(), bursts),
    ensures
        bursts_run(Seq::empty(), bursts) == (
            complete_frames(stream_of(bursts)),
            stream_of(bursts).subrange(frames_end(stream_of(bursts)), stream_of(bursts).len() as int),
        ),
    decreases bursts.len(),
{
    if bursts.len() == 0 {
        assert(complete_frames(Seq::<u8>::empty()) =~= Seq::<Seq<u8>>::empty());
        assert(Seq::<u8>::empty().subrange(0, 0) =~= Seq::<u8>::empty());
    } else {
        let prev = bursts.drop_last();
        lemma_bursts_deliver_stream(prev);
        let s = stream_of(prev);
        lemma_frames_extend(s, bursts.last());
    }
}

/// Every frame of `s` is shorter than the receive buffer, so that with its
/// delimiter it fits in it, and so is the unfinished rest.
pub open spec fn frames_fit(s: Seq<u8>) -> bool {
    &&& forall|k: int|
        0 <= k < complete_frames(s).len() ==> (#[trigger] complete_frames(s)[k]).len() < RX_BUF_LEN
    &&& s.len() - frames_end(s) < RX_BUF_LEN
}

/// While the first `n` bytes of `v` hold no delimiter, nothing is closed
/// before them: the scan has found no frame yet, or its first frame is at
/// least `n` bytes long.
proof fn lemma_first_frame(v: Seq<u8>, n: nat, j: nat)
    requires
        n <= j <= v.len(),
        forall|i: int| 0 <= i < n ==> v[i] != FRAME_DELIM,
    ensures
        scan_frames(v, j).0.len() == 0 ==> scan_frames(v, j).1 == 0,
        scan_frames(v, j).0.len() > 0 ==> scan_frames(v, j).0[0].len() >= n,
    decreases j,
{
    if j == n {
        lemma_scan_quiet(v, 0, n);
    } else {
        lemma_first_frame(v, n, (j - 1) as nat);
        lemma_scan(v, (j - 1) as nat);
        let prev = scan_frames(v, (j - 1) as nat);
        if v[j - 1] == FRAME_DELIM && prev.0.len() > 0 {
            assert(scan_frames(v, j).0[0] == prev.0[0]);
        }
    }
}

/// The bursts of a stream prefix never overflow when the prefix followed by
/// any further bytes `more` still has frames that fit: an overflow would leave
/// a full buffer with no delimiter, which later bytes can only close into a
/// frame too long, or leave as a rest too long.
proof fn lemma_fitting_stream_never_overflows(bursts: Seq<Seq<u8>>, more: Seq<u8>)
    requires
        frames_fit(stream_of(bursts) + more),
    ensures
        never_overflows(Seq::empty(), bursts),
    decreases bursts.len(),
{
    if bursts.len() > 0 {
        let prev = bursts.drop_last();
        let last = bursts.last();
        let s = stream_of(prev);
        let p = stream_of(bursts);
        assert(s + (last + more) =~= p + more);
        lemma_fitting_stream_never_overflows(prev, last + more);
        lemma_bursts_deliver_stream(prev);
        lemma_frames_reassemble(s);
        let all = s.subrange(frames_end(s), s.len() as int) + last;
        assert(p == s + last);
        if overflows(all) {
            lemma_frames_extend(s, last);
            lemma_frames_reassemble(all);
            lemma_frames_reassemble(p);
            assert(all.subrange(0, all.len() as int) =~= all);
            let v = p.subrange(frames_end(p), p.len() as int) + more;
            assert(v == all + more);
            lemma_frames_extend(p, more);
            assert(v.len() >= RX_BUF_LEN);
            assert forall|i: int| 0 <= i < RX_BUF_LEN implies v[i] != FRAME_DELIM by {
                assert(v[i] == all[i]);
            }
            lemma_first_frame(v, RX_BUF_LEN as nat, v.len());
            lemma_frames_reassemble(v);
            if complete_frames(v).len() > 0 {
                let k = complete_frames(p).len() as int;
                assert(complete_frames(p + more)[k] == complete_frames(v)[0]);
                assert(false);
            } else {
                assert(frames_end(v) == 0);
                assert((p + more).len() - frames_end(p + more) == v.len() - frames_end(v));
                assert(false);
            }
        }
    }
}

/// When every frame of the stream, delimiter included, fits in the receive
/// buffer, and so does its unfinished rest, no burst ever ends with an
/// unfinished frame filling the buffer, however the stream is cut into
/// bursts; the stream is then delivered whole (`lemma_bursts_deliver_stream`).
pub proof fn lemma_fitting_frames_never_overflow(bursts: Seq<Seq<u8>>)
    requires
        frames_fit(stream_of(bursts)),
    ensures
        never_overflows(Seq::empty(), bursts),
        bursts_run(Seq::empty(), bursts) == (
            complete_frames(stream_of(bursts)),
            stream_of(bursts).subrange(frames_end(stream_of(bursts)), stream_of(bursts).len() as int),
        ),
{
    assert(stream_of(bursts) + Seq::<u8>::empty() =~= stream_of(bursts));
    lemma_fitting_stream_never_overflows(bursts, Seq::empty());
    lemma_bursts_deliver_stream(bursts);
}

fn copy_range(v: &Vec<u8>, lo: usize, hi: usize) -> (r: Vec<u8>)
    requires
        lo <= hi <= v@.len(),
    ensures
        r@ == v@.subrange(lo as int, hi as int),
{
    vstd::slice::slice_to_vec(vstd::slice::slice_subrange(v.as_slice(), lo, hi))
}

/// Collects bytes arriving in bursts and cuts them into delimiter-terminated
/// frames. Bytes of an unfinished frame wait for the next burst; an unfinished
/// frame that fills the whole buffer is dropped.
pub struct FrameReceiver {
    pending: Vec<u8>,
}

impl View for FrameReceiver {
    type V = Seq<u8>;

    closed spec fn view(&self) -> Seq<u8> {
        self.pending@
    }
}

impl FrameReceiver {
    /// The waiting bytes leave room for at least one more byte.
    pub closed spec fn wf(&self) -> bool {
        self.pending@.len() < RX_BUF_LEN
    }

    /// Starts with nothing waiting.
    pub fn new() -> (r: Self)
        ensures
            r.wf(),
            r@ == Seq::<u8>::empty(),
    {
        FrameReceiver { pending: Vec::new() }
    }

    /// How many bytes the next burst may bring.
    pub fn free_space(&self) -> (r: usize)
        requires
            self.wf(),
        ensures
            r == RX_BUF_LEN - self@.len(),
            r >= 1,
    {
        RX_BUF_LEN - self.pending.len()
    }

    /// Appends a burst and returns the frames it completes, in order. What
    /// follows the last delimiter waits for the next burst, unless no
    /// delimiter was seen and the buffer is full, in which case it is dropped.
    pub fn receive(&mut self, data: &[u8]) -> (frames: Vec<Vec<u8>>)
        requires
            old(self).wf(),
            data@.len() <= RX_BUF_LEN - old(self)@.len(),
        ensures
            final(self).wf(),
            vec_views(frames@) == complete_frames(old(self)@ + data@),
            final(self)@ == pending_after(old(self)@, data@),
    {
        let ghost all_spec = self.pending@ + data@;
        let mut all: Vec<u8> = Vec::with_capacity(RX_BUF_LEN);
        let mut i: usize = 0;
        let plen = self.pending.len();
        while i < plen
            invariant
                plen == self.pending@.len(),
                i <= plen,
                all@ =~= self.pending@.take(i as int),
            decreases plen - i,
        {
            all.push(self.pending[i]);
            i += 1;
        }
        let dlen = data.len();
        let mut i: usize = 0;
        while i < dlen
            invariant
                dlen == data@.len(),
                plen == self.pending@.len(),
                all_spec == self.pending@ + data@,
                i <= dlen,
                all@ =~= self.pending@ + data@.take(i as int),
            decreases dlen - i,
        {
            all.push(data[i]);
            i += 1;
        }
        assert(all@ =~= all_spec);
        let end = all.len();
        let mut frames: Vec<Vec<u8>> = Vec::new();
        let mut start: usize = 0;
        let mut j: usize = 0;
        while j < end
            invariant
                end == all@.len(),
                j <= end,
                vec_views(frames@) == scan_frames(all@, j as nat).0,
                start == scan_frames(all@, j as nat).1,
            decreases end - j,
        {
            proof {
                lemma_scan(all@, j as nat);
            }
            if all[j] == FRAME_DELIM {
                let frame = copy_range(&all, start, j);
                frames.push(frame);
                start = j + 1;
                proof {
                    assert(vec_views(frames@) =~= scan_frames(all@, (j + 1) as nat).0);
                }
            } else {
                proof {
                    assert(vec_views(frames@) =~= scan_frames(all@, (j + 1) as nat).0);
                }
            }
            j += 1;
        }
        proof {
            lemma_scan(all@, end as nat);
        }
        if start == 0 && end == RX_BUF_LEN {
            self.pending = Vec::new();
        } else {
            self.pending = copy_range(&all, start, end);
        }
        frames
    }
}

} // verus!
