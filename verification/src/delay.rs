use vstd::prelude::*;

verus! {

/// Audio sample rate the delay effect runs at (Hz).
pub const SAMPLE_RATE: usize = 48000;

/// The number of samples in `ms` milliseconds at 48 kHz (rounded down).
pub fn ms_to_samples(ms: usize) -> (r: usize)
    requires
        SAMPLE_RATE * ms <= usize::MAX,
    ensures
        r == SAMPLE_RATE * ms / 1000,
{
    SAMPLE_RATE * ms / 1000
}

/// The slots of a ring of `t` samples after writing `inputs` one by one from
/// position `start`, each write moving on by one slot.
pub open spec fn ring_after<S>(ring: Seq<S>, start: int, inputs: Seq<S>, t: int) -> Seq<S>
    decreases inputs.len(),
{
    if inputs.len() == 0 {
        ring
    } else {
        ring_after(
            ring,
            start,
            inputs.drop_last(),
            t,
        ).update((start + inputs.len() - 1) % t, inputs.last())
    }
}

/// A ring buffer of `T` samples: the sample read now is the one written `T`
/// writes ago.
pub struct DelayLine<S, const T: usize> {
    buffer: Vec<S>,
    index: usize,
}

impl<S: Copy, const T: usize> DelayLine<S, T> {
    /// The ring's slots.
    pub closed spec fn slots(&self) -> Seq<S> {
        self.buffer@
    }

    /// The slot read and written next.
    pub closed spec fn position(&self) -> nat {
        self.index as nat
    }

    /// The ring has `T` slots and the position lies inside it (or is 0 for a
    /// ring without slots).
    pub closed spec fn wf(&self) -> bool {
        &&& self.buffer@.len() == T
        &&& (self.index < T || (T == 0 && self.index == 0))
    }

    /// A ring of `T` copies of `silence`, starting at slot 0.
    pub fn new(silence: S) -> (r: Self)
        ensures
            r.wf(),
            r.slots() == Seq::new(T as nat, |i: int| silence),
            r.position() == 0,
    {
        let mut buffer: Vec<S> = Vec::with_capacity(T);
        let mut i: usize = 0;
        while i < T
            invariant
                i <= T,
                buffer@ =~= Seq::new(i as nat, |j: int| silence),
            decreases T - i,
        {
            buffer.push(silence);
            i += 1;
        }
        DelayLine { buffer, index: 0 }
    }

    /// The delayed sample: what the current slot holds. A ring without
    /// slots has nothing to read.
    pub fn current(&self) -> (r: S)
        requires
            self.wf(),
            T > 0,
        ensures
            r == self.slots()[self.position() as int],
    {
        self.buffer[self.index]
    }

    /// Stores `s` in the current slot and moves on, wrapping after the last.
    pub fn push(&mut self, s: S)
        requires
            old(self).wf(),
            T > 0,
        ensures
            final(self).wf(),
            final(self).slots() == old(self).slots().update(old(self).position() as int, s),
            final(self).position() == (old(self).position() + 1) % (T as nat),
    {
        self.buffer.set(self.index, s);
        self.index = (self.index + 1) % T;
    }
}

/// After writing `inputs` around a ring of `t` slots from `start`, the last
/// `t` of them (at most) sit in order in the slots that follow `start`.
proof fn lemma_ring_holds_recent<S>(ring: Seq<S>, start: int, inputs: Seq<S>, t: int)
    requires
        0 < t,
        ring.len() == t,
        0 <= start < t,
    ensures
        ring_after(ring, start, inputs, t).len() == t,
        forall|j: int|
            0 <= j < inputs.len() && inputs.len() - j <= t ==> #[trigger] ring_after(
                ring,
                start,
                inputs,
                t,
            )[(start + j) % t] == inputs[j],
    decreases inputs.len(),
{
    if inputs.len() > 0 {
        let prev = inputs.drop_last();
        lemma_ring_holds_recent(ring, start, prev, t);
        let n = inputs.len();
        assert forall|j: int| 0 <= j < n && n - j <= t implies #[trigger] ring_after(
            ring,
            start,
            inputs,
            t,
        )[(start + j) % t] == inputs[j] by {
            if j < n - 1 {
                vstd::arithmetic::div_mod::lemma_mod_bound(start + j, t);
                vstd::arithmetic::div_mod::lemma_mod_bound(start + n - 1, t);
                if (start + j) % t == (start + n - 1) % t {
                    lemma_mod_distinct(start + j, start + n - 1, t);
                }
                assert(prev[j] == inputs[j]);
            }
        }
        vstd::arithmetic::div_mod::lemma_mod_bound(start + n - 1, t);
    }
}

proof fn lemma_mod_distinct(a: int, b: int, t: int)
    requires
        0 < t,
        a < b,
        b - a < t,
    ensures
        a % t != b % t,
{
    vstd::arithmetic::div_mod::lemma_fundamental_div_mod(a, t);
    vstd::arithmetic::div_mod::lemma_fundamental_div_mod(b, t);
    vstd::arithmetic::div_mod::lemma_mod_bound(a, t);
    vstd::arithmetic::div_mod::lemma_mod_bound(b, t);
    if a % t == b % t {
        assert(t * (b / t) - t * (a / t) == b - a);
        vstd::arithmetic::mul::lemma_mul_is_distributive_sub(t, b / t, a / t);
        if b / t - a / t >= 1 {
            vstd::arithmetic::mul::lemma_mul_inequality(1, b / t - a / t, t);
        } else {
            vstd::arithmetic::mul::lemma_mul_inequality(b / t - a / t, 0, t);
        }
    }
}

/// Once a full ring's worth of `t` samples has been written since `start`,
/// the slot read next (at `start` again) holds the first of them: every
/// sample comes back out exactly `t` writes after it went in.
pub proof fn lemma_delay_is_t_samples<S>(ring: Seq<S>, start: int, inputs: Seq<S>, t: int)
    requires
        0 < t,
        ring.len() == t,
        0 <= start < t,
        inputs.len() == t,
    ensures
        ring_after(ring, start, inputs, t)[(start + t) % t] == inputs[0],
{
    lemma_ring_holds_recent(ring, start, inputs, t);
    vstd::arithmetic::div_mod::lemma_mod_add_multiples_vanish(start, t);
    assert(ring_after(ring, start, inputs, t)[(start + 0) % t] == inputs[0]);
}

} // verus!
