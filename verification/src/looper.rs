use vstd::prelude::*;

verus! {

/// Looper mode.
#[derive(Clone, Copy, PartialEq, Eq, Structural, Debug)]
pub enum State {
    Idle,
    Recording,
    Replaying,
    OverDubbing,
    Clear,
}

/// How long (ms) the footswitch must be held to clear the loop.
pub const HOLD_TO_CLEAR_MS: u64 = 1000;

/// The mode a footswitch press moves to.
pub open spec fn pressed(state: State) -> State {
    match state {
        State::Idle => State::Recording,
        State::Recording => State::Replaying,
        State::Replaying => State::OverDubbing,
        State::OverDubbing => State::Replaying,
        State::Clear => State::Idle,
    }
}

/// Tracks the footswitch: each press steps the mode; a long hold asks the
/// looper to clear.
pub struct Footswitch {
    pub state: State,
}

impl Footswitch {
    /// Starts idle.
    pub fn new() -> (r: Self)
        ensures
            r.state == State::Idle,
    {
        Footswitch { state: State::Idle }
    }

    /// A press (rising edge) steps the mode.
    pub fn press(&mut self)
        ensures
            final(self).state == pressed(old(self).state),
    {
        self.state = match self.state {
            State::Idle => State::Recording,
            State::Recording => State::Replaying,
            State::Replaying => State::OverDubbing,
            State::OverDubbing => State::Replaying,
            State::Clear => State::Idle,
        };
    }

    /// A release (falling edge) after `held_ms`: a hold of at least a second
    /// sends `Clear` to the looper; a shorter one sends nothing.
    pub fn release(&self, held_ms: u64) -> (r: Option<State>)
        ensures
            r == if held_ms >= HOLD_TO_CLEAR_MS {
                Some(State::Clear)
            } else {
                None::<State>
            },
    {
        if held_ms >= HOLD_TO_CLEAR_MS {
            Some(State::Clear)
        } else {
            None
        }
    }
}

/// Pressing from idle records, the next press plays the loop back, and from
/// then on presses alternate between overdubbing and playing back.
pub proof fn lemma_press_cycle()
    ensures
        pressed(State::Idle) == State::Recording,
        pressed(pressed(State::Idle)) == State::Replaying,
        pressed(pressed(State::Replaying)) == State::Replaying,
        pressed(State::Replaying) == State::OverDubbing,
        pressed(State::Clear) == State::Idle,
{
}

/// What the caller does with the live frame after one looper step.
pub enum LoopStep<F> {
    /// The live frame passes unchanged.
    Through,
    /// Add this loop frame to the live frame.
    Add(F),
    /// Add `loop_frame` to the live frame, and store the loop frame plus the
    /// live (dry) frame back at `slot` with `overwrite`.
    OverDub { slot: usize, loop_frame: F },
}

/// The mode the looper runs a step in: a received mode replaces the current one.
pub open spec fn effective(current: State, received: Option<State>) -> State {
    match received {
        Some(s) => s,
        None => current,
    }
}

/// The loop, position and mode after one looper step on `input`.
pub open spec fn loop_step<F>(
    frames: Seq<F>,
    position: nat,
    mode: State,
    silence: F,
    input: F,
    received: Option<State>,
) -> (Seq<F>, nat, State) {
    let m = effective(mode, received);
    match m {
        State::Idle => (frames, position, m),
        State::Recording => (frames.push(input), position, m),
        State::Replaying => (frames, (position + 1) % frames.len(), m),
        State::OverDubbing => (frames, (position + 1) % frames.len(), m),
        State::Clear => (Seq::new(frames.len(), |i: int| silence), position, State::Idle),
    }
}

/// The loop frame a step plays into the live frame, if it plays one.
pub open spec fn loop_played<F>(frames: Seq<F>, position: nat, mode: State, received: Option<State>) -> Option<F> {
    let m = effective(mode, received);
    if m == State::Replaying || m == State::OverDubbing {
        Some(frames[position as int])
    } else {
        None
    }
}

/// The loop, position and mode after a run of steps, each a live frame and
/// the mode received with it.
pub open spec fn loop_run<F>(
    frames: Seq<F>,
    position: nat,
    mode: State,
    silence: F,
    events: Seq<(F, Option<State>)>,
) -> (Seq<F>, nat, State)
    decreases events.len(),
{
    if events.len() == 0 {
        (frames, position, mode)
    } else {
        let prev = loop_run(frames, position, mode, silence, events.drop_last());
        loop_step(prev.0, prev.1, prev.2, silence, events.last().0, events.last().1)
    }
}

/// Frames `xs` arriving with `first` received along the first of them.
pub open spec fn events_from<F>(xs: Seq<F>, first: State) -> Seq<(F, Option<State>)> {
    Seq::new(xs.len(), |i: int| (xs[i], if i == 0 { Some(first) } else { None::<State> }))
}

/// Records frames into a loop and plays them back, cycling through the loop.
/// The frame arithmetic is the caller's; the looper decides what is stored,
/// what is played and where.
pub struct Looper<F> {
    buffer: Vec<F>,
    index: usize,
    state: State,
    silence: F,
}

impl<F: Copy> Looper<F> {
    /// The recorded loop.
    pub closed spec fn frames(&self) -> Seq<F> {
        self.buffer@
    }

    /// The loop position played next.
    pub closed spec fn position(&self) -> nat {
        self.index as nat
    }

    /// The current mode.
    pub closed spec fn mode(&self) -> State {
        self.state
    }

    /// The frame a cleared loop is filled with.
    pub closed spec fn silent_frame(&self) -> F {
        self.silence
    }

    /// The position lies inside a non-empty loop, or is 0 for an empty one.
    pub closed spec fn wf(&self) -> bool {
        if self.buffer@.len() == 0 {
            self.index == 0
        } else {
            self.index < self.buffer@.len()
        }
    }

    /// Starts idle at the front of `buffer`; `silence` is what clearing writes.
    pub fn new(buffer: Vec<F>, silence: F) -> (r: Self)
        ensures
            r.wf(),
            r.frames() == buffer@,
            r.position() == 0,
            r.mode() == State::Idle,
            r.silent_frame() == silence,
    {
        Looper { buffer, index: 0, state: State::Idle, silence }
    }

    fn advance(&mut self)
        requires
            old(self).buffer@.len() > 0,
            old(self).index < old(self).buffer@.len(),
        ensures
            final(self).index == (old(self).index + 1) % (old(self).buffer@.len() as int),
            final(self).buffer == old(self).buffer,
            final(self).state == old(self).state,
            final(self).silence == old(self).silence,
    {
        let n = self.buffer.len();
        self.index = (self.index + 1) % n;
    }

    /// One frame of looping. A received mode first replaces the current one.
    /// Idle passes the frame; Recording appends it to the loop; Replaying
    /// plays the loop frame at the position and moves on; OverDubbing also
    /// hands back the position so the caller stores the mix there; Clear
    /// silences the whole loop and goes idle. Playing back needs a recorded
    /// loop.
    pub fn process(&mut self, input: F, received: Option<State>) -> (r: LoopStep<F>)
        requires
            old(self).wf(),
            effective(old(self).mode(), received) == State::Replaying || effective(
                old(self).mode(),
                received,
            ) == State::OverDubbing ==> old(self).frames().len() > 0,
            effective(old(self).mode(), received) == State::Recording ==> old(self).frames().len()
                < usize::MAX,
        ensures
            final(self).wf(),
            final(self).silent_frame() == old(self).silent_frame(),
            (final(self).frames(), final(self).position(), final(self).mode()) == loop_step(
                old(self).frames(),
                old(self).position(),
                old(self).mode(),
                old(self).silent_frame(),
                input,
                received,
            ),
            loop_played(old(self).frames(), old(self).position(), old(self).mode(), received) == match r {
                LoopStep::Through => None::<F>,
                LoopStep::Add(l) => Some(l),
                LoopStep::OverDub { slot, loop_frame } => Some(loop_frame),
            },
            ({
                let m = effective(old(self).mode(), received);
                let fr = old(self).frames();
                let p = old(self).position();
                match m {
                    State::Idle => {
                        &&& r is Through
                        &&& final(self).frames() == fr
                        &&& final(self).position() == p
                        &&& final(self).mode() == m
                    },
                    State::Recording => {
                        &&& r is Through
                        &&& final(self).frames() == fr.push(input)
                        &&& final(self).position() == p
                        &&& final(self).mode() == m
                    },
                    State::Replaying => {
                        &&& r matches LoopStep::Add(l) && l == fr[p as int]
                        &&& final(self).frames() == fr
                        &&& final(self).position() == (p + 1) % fr.len()
                        &&& final(self).mode() == m
                    },
                    State::OverDubbing => {
                        &&& r matches LoopStep::OverDub { slot, loop_frame } && slot == p
                            && loop_frame == fr[p as int]
                        &&& final(self).frames() == fr
                        &&& final(self).position() == (p + 1) % fr.len()
                        &&& final(self).mode() == m
                    },
                    State::Clear => {
                        &&& r is Through
                        &&& final(self).frames() == Seq::new(
                            fr.len(),
                            |i: int| old(self).silent_frame(),
                        )
                        &&& final(self).position() == p
                        &&& final(self).mode() == State::Idle
                    },
                }
            }),
    {
        if let Some(s) = received {
            self.state = s;
        }
        match self.state {
            State::Idle => LoopStep::Through,
            State::Recording => {
                self.buffer.push(input);
                LoopStep::Through
            },
            State::Replaying => {
                let l = self.buffer[self.index];
                self.advance();
                LoopStep::Add(l)
            },
            State::OverDubbing => {
                let slot = self.index;
                let l = self.buffer[slot];
                self.advance();
                LoopStep::OverDub { slot, loop_frame: l }
            },
            State::Clear => {
                let n = self.buffer.len();
                let silence = self.silence;
                let mut cleared: Vec<F> = Vec::with_capacity(n);
                let mut i: usize = 0;
                while i < n
                    invariant
                        i <= n,
                        cleared@ =~= Seq::new(i as nat, |j: int| silence),
                    decreases n - i,
                {
                    cleared.push(silence);
                    i += 1;
                }
                self.buffer = cleared;
                self.state = State::Idle;
                LoopStep::Through
            },
        }
    }

    /// The current mode.
    pub fn state(&self) -> (r: State)
        ensures
            r == self.mode(),
    {
        self.state
    }

    /// Number of frames in the loop.
    pub fn loop_len(&self) -> (r: usize)
        ensures
            r == self.frames().len(),
    {
        self.buffer.len()
    }

    /// Stores an overdubbed frame back into the loop.
    pub fn overwrite(&mut self, slot: usize, value: F)
        requires
            old(self).wf(),
            slot < old(self).frames().len(),
        ensures
            final(self).wf(),
            final(self).frames() == old(self).frames().update(slot as int, value),
            final(self).position() == old(self).position(),
            final(self).mode() == old(self).mode(),
            final(self).silent_frame() == old(self).silent_frame(),
    {
        self.buffer.set(slot, value);
    }
}

/// Playing back a loop of `len` frames from position `p` reaches position
/// `(p + k) % len` after `k` frames; after `len` frames it is back where it
/// started.
pub open spec fn position_after(p: int, len: int, k: nat) -> int
    decreases k,
{
    if k == 0 {
        p
    } else {
        (position_after(p, len, (k - 1) as nat) + 1) % len
    }
}

/// Playing back `k` frames from position `p` of a loop of `len` frames ends at
/// `(p + k) % len`; in particular a whole loop's worth returns to `p`.
pub proof fn lemma_playback_wraps(p: int, len: int, k: nat)
    requires
        0 <= p < len,
    ensures
        position_after(p, len, k) == (p + k) % len,
        position_after(p, len, len as nat) == p,
{
    lemma_position_after(p, len, k);
    lemma_position_after(p, len, len as nat);
    vstd::arithmetic::div_mod::lemma_mod_add_multiples_vanish(p, len);
    vstd::arithmetic::div_mod::lemma_small_mod(p as nat, len as nat);
}

proof fn lemma_position_after(p: int, len: int, k: nat)
    requires
        0 <= p < len,
    ensures
        position_after(p, len, k) == (p + k) % len,
    decreases k,
{
    if k == 0 {
        vstd::arithmetic::div_mod::lemma_small_mod(p as nat, len as nat);
    } else {
        lemma_position_after(p, len, (k - 1) as nat);
        vstd::arithmetic::div_mod::lemma_add_mod_noop_right(1, p + k - 1, len);
    }
}

/// Recording: from an empty, idle looper, frames that arrive with
/// `Recording` received along the first are appended in order, the position
/// stays at the front, and none of them is played over.
pub proof fn lemma_recording<F>(rs: Seq<F>, silence: F, k: nat)
    requires
        k <= rs.len(),
    ensures
        loop_run(Seq::empty(), 0, State::Idle, silence, events_from(rs, State::Recording).take(k as int))
            == (rs.take(k as int), 0nat, if k == 0 { State::Idle } else { State::Recording }),
        k < rs.len() ==> loop_played(
            rs.take(k as int),
            0,
            if k == 0 { State::Idle } else { State::Recording },
            events_from(rs, State::Recording)[k as int].1,
        ) is None,
    decreases k,
{
    let ev = events_from(rs, State::Recording);
    if k > 0 {
        lemma_recording(rs, silence, (k - 1) as nat);
        assert(ev.take(k as int).drop_last() =~= ev.take(k - 1));
        assert(rs.take(k - 1).push(rs[k - 1]) =~= rs.take(k as int));
    } else {
        assert(ev.take(0) =~= Seq::<(F, Option<State>)>::empty());
        assert(rs.take(0) =~= Seq::<F>::empty());
    }
}

/// Playback: after a loop `rs` of `n > 0` frames was recorded, frames that
/// arrive with `Replaying` received along the first are each mixed with loop
/// frame `k % n` (the `k`-th of them, from 0): the loop plays cyclically and
/// is left unchanged.
pub proof fn lemma_cyclic_playback<F>(rs: Seq<F>, xs: Seq<F>, silence: F, k: nat)
    requires
        rs.len() > 0,
        k <= xs.len(),
    ensures
        loop_run(rs, 0, State::Recording, silence, events_from(xs, State::Replaying).take(k as int))
            == (rs, k % rs.len(), if k == 0 { State::Recording } else { State::Replaying }),
        k < xs.len() ==> loop_played(
            rs,
            k % rs.len(),
            if k == 0 { State::Recording } else { State::Replaying },
            events_from(xs, State::Replaying)[k as int].1,
        ) == Some(rs[(k % rs.len()) as int]),
    decreases k,
{
    let ev = events_from(xs, State::Replaying);
    let n = rs.len();
    if k > 0 {
        lemma_cyclic_playback(rs, xs, silence, (k - 1) as nat);
        assert(ev.take(k as int).drop_last() =~= ev.take(k - 1));
        vstd::arithmetic::div_mod::lemma_add_mod_noop_right(1, k - 1, n as int);
    } else {
        assert(ev.take(0) =~= Seq::<(F, Option<State>)>::empty());
        vstd::arithmetic::div_mod::lemma_small_mod(0, n);
    }
    vstd::arithmetic::div_mod::lemma_mod_bound(k as int, n as int);
}

} // verus!
