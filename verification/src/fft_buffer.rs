use vstd::prelude::*;

verus! {

/// Why a buffer operation did not simply succeed.
pub enum FftState<T> {
    /// Still filling; the payload is how many samples have been written.
    Wait(usize),
    /// No buffer is currently held.
    NoBuf,
    /// The buffer is full and is handed over.
    Ready(Vec<T>),
}

/// Marker type for the FFT sizes the analyser supports.
pub struct RunFft;

/// `start` after its first `inputs.len()` entries were overwritten by `inputs`.
pub open spec fn filled_with<T>(start: Seq<T>, inputs: Seq<T>) -> Seq<T> {
    inputs + start.subrange(inputs.len() as int, start.len() as int)
}

/// The held buffer and fill position after one `add` of `x` to a buffer of
/// `n` samples: nothing held stays so; a full buffer is handed over (nothing
/// is held afterwards); otherwise `x` is stored at the position.
pub open spec fn add_step<T>(buffer: Option<Seq<T>>, position: nat, x: T, n: nat) -> (Option<Seq<T>>, nat) {
    match buffer {
        None => (None, position),
        Some(b) => if position == n {
            (None, position)
        } else {
            (Some(b.update(position as int, x)), position + 1)
        },
    }
}

/// The buffer an `add` hands over (`Ready`), if it hands one over.
pub open spec fn add_handover<T>(buffer: Option<Seq<T>>, position: nat, n: nat) -> Option<Seq<T>> {
    match buffer {
        Some(b) => if position == n {
            Some(b)
        } else {
            None
        },
        None => None,
    }
}

/// The held buffer and position after adding `xs` one by one.
pub open spec fn adds_run<T>(buffer: Option<Seq<T>>, position: nat, xs: Seq<T>, n: nat) -> (Option<Seq<T>>, nat)
    decreases xs.len(),
{
    if xs.len() == 0 {
        (buffer, position)
    } else {
        let prev = adds_run(buffer, position, xs.drop_last(), n);
        add_step(prev.0, prev.1, xs.last(), n)
    }
}

/// Fills an `N`-sample analysis buffer one sample at a time and hands it over
/// once full. `H` is the matching spectrum size (`N / 2`).
pub struct FftWrite<T, const N: usize, const H: usize> {
    write_buf: Option<Vec<T>>,
    index: usize,
}

impl<T, const N: usize, const H: usize> FftWrite<T, N, H> {
    /// The buffer currently held, if any.
    pub closed spec fn buffer(&self) -> Option<Seq<T>> {
        match self.write_buf {
            Some(v) => Some(v@),
            None => None,
        }
    }

    /// How many samples have been written into the held buffer.
    pub closed spec fn position(&self) -> nat {
        self.index as nat
    }

    /// A held buffer has exactly `N` samples and the position lies within it.
    pub closed spec fn wf(&self) -> bool {
        match self.write_buf {
            Some(v) => v@.len() == N && self.index <= N,
            None => self.index <= N,
        }
    }

    /// Starts without a buffer.
    pub fn new() -> (r: Self)
        ensures
            r.wf(),
            r.buffer() is None,
            r.position() == 0,
    {
        FftWrite { write_buf: None, index: 0 }
    }

    /// Hands in an empty buffer of `N` samples; filling restarts at its front.
    pub fn set_buf(&mut self, input: Vec<T>)
        requires
            input@.len() == N,
        ensures
            final(self).wf(),
            final(self).buffer() == Some(input@),
            final(self).position() == 0,
    {
        self.write_buf = Some(input);
        self.index = 0;
    }

    /// Takes the held buffer back out, whatever its fill level.
    pub fn get_buf(&mut self) -> (r: Result<Vec<T>, FftState<T>>)
        requires
            old(self).wf(),
        ensures
            final(self).wf(),
            final(self).buffer() is None,
            final(self).position() == old(self).position(),
            match old(self).buffer() {
                Some(b) => r matches Ok(v) && v@ == b,
                None => r matches Err(FftState::NoBuf),
            },
    {
        match self.write_buf.take() {
            Some(o) => Ok(o),
            None => Err(FftState::NoBuf),
        }
    }

    /// Writes one sample. With no buffer held the result is `NoBuf`; with a
    /// full buffer the buffer is handed over as `Ready` (the sample is not
    /// stored); otherwise the sample is stored at the current position.
    pub fn add(&mut self, input: T) -> (r: Result<(), FftState<T>>)
        requires
            old(self).wf(),
        ensures
            final(self).wf(),
            (final(self).buffer(), final(self).position()) == add_step(
                old(self).buffer(),
                old(self).position(),
                input,
                N as nat,
            ),
            match add_handover(old(self).buffer(), old(self).position(), N as nat) {
                Some(b) => r matches Err(FftState::Ready(v)) && v@ == b,
                None => old(self).buffer() is Some ==> r is Ok,
            },
            match old(self).buffer() {
                None => {
                    &&& r matches Err(FftState::NoBuf)
                    &&& final(self).buffer() is None
                    &&& final(self).position() == old(self).position()
                },
                Some(b) => if old(self).position() == N {
                    &&& r matches Err(FftState::Ready(v)) && v@ == b
                    &&& final(self).buffer() is None
                    &&& final(self).position() == old(self).position()
                } else {
                    &&& r is Ok
                    &&& final(self).buffer() == Some(b.update(old(self).position() as int, input))
                    &&& final(self).position() == old(self).position() + 1
                },
            },
    {
        match self.write_buf.take() {
            Some(mut buf) => {
                if self.index == N {
                    Err(FftState::Ready(buf))
                } else {
                    buf.set(self.index, input);
                    self.index += 1;
                    self.write_buf = Some(buf);
                    Ok(())
                }
            },
            None => Err(FftState::NoBuf),
        }
    }
}

/// Storing one more sample at the fill position extends the written prefix.
pub proof fn lemma_fill_step<T>(start: Seq<T>, inputs: Seq<T>, x: T)
    requires
        inputs.len() < start.len(),
    ensures
        filled_with(start, inputs).update(inputs.len() as int, x) == filled_with(start, inputs.push(x)),
{
    assert(filled_with(start, inputs).update(inputs.len() as int, x) =~= filled_with(
        start,
        inputs.push(x),
    ));
}

/// A freshly handed-in buffer holds nothing written yet, and a buffer filled to
/// the end holds exactly the samples written, in order.
pub proof fn lemma_fill_ends<T>(start: Seq<T>, inputs: Seq<T>)
    ensures
        filled_with(start, Seq::<T>::empty()) == start,
        inputs.len() == start.len() ==> filled_with(start, inputs) == inputs,
{
    assert(filled_with(start, Seq::<T>::empty()) =~= start);
    if inputs.len() == start.len() {
        assert(filled_with(start, inputs) =~= inputs);
    }
}

/// After a buffer `b` of `n` samples is handed in, adding `xs` (at most `n`
/// of them) stores each in turn: the buffer holds `xs` followed by the rest of
/// `b`, and no add along the way hands anything over.
pub proof fn lemma_adds_fill<T>(b: Seq<T>, xs: Seq<T>, n: nat)
    requires
        b.len() == n,
        xs.len() <= n,
    ensures
        adds_run(Some(b), 0, xs, n) == (Some(filled_with(b, xs)), xs.len()),
        forall|k: int|
            0 <= k < xs.len() ==> #[trigger] add_handover(
                adds_run(Some(b), 0, xs.take(k), n).0,
                adds_run(Some(b), 0, xs.take(k), n).1,
                n,
            ) is None,
    decreases xs.len(),
{
    if xs.len() > 0 {
        let prev = xs.drop_last();
        lemma_adds_fill(b, prev, n);
        lemma_fill_step(b, prev, xs.last());
        assert(prev.push(xs.last()) =~= xs);
        assert forall|k: int| 0 <= k < xs.len() implies #[trigger] add_handover(
            adds_run(Some(b), 0, xs.take(k), n).0,
            adds_run(Some(b), 0, xs.take(k), n).1,
            n,
        ) is None by {
            assert(xs.take(k) =~= prev.take(k));
            if k == prev.len() {
                assert(prev.take(k) =~= prev);
            }
        }
    } else {
        lemma_fill_ends(b, xs);
    }
}

/// Once `n` samples are in, the next add hands over exactly those samples,
/// in order, and nothing is held afterwards.
pub proof fn lemma_full_hands_over<T>(b: Seq<T>, xs: Seq<T>, x: T, n: nat)
    requires
        b.len() == n,
        xs.len() == n,
    ensures
        add_handover(adds_run(Some(b), 0, xs, n).0, adds_run(Some(b), 0, xs, n).1, n) == Some(xs),
        add_step(adds_run(Some(b), 0, xs, n).0, adds_run(Some(b), 0, xs, n).1, x, n) == (
            None::<Seq<T>>,
            n,
        ),
{
    lemma_adds_fill(b, xs, n);
    lemma_fill_ends(b, xs);
}

/// With no buffer held, adds change nothing and hand nothing over (each is
/// `NoBuf`) until a buffer is handed in again.
pub proof fn lemma_no_buffer_stays<T>(position: nat, ys: Seq<T>, n: nat)
    ensures
        adds_run(None, position, ys, n) == (None::<Seq<T>>, position),
        add_handover(None::<Seq<T>>, position, n) is None,
    decreases ys.len(),
{
    if ys.len() > 0 {
        lemma_no_buffer_stays(position, ys.drop_last(), n);
    }
}

} // verus!
