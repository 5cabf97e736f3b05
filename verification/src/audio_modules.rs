use vstd::prelude::*;

verus! {

/// Number of samples in one fixed audio block.
pub const AUDIO_BUFFER_LEN: usize = 1024;

/// One fixed-size block of 16-bit PCM samples.
pub struct AudioBuffer {
    pub samples: [i16; 1024],
}

/// `x` limited to the range of `i16`.
pub open spec fn clamp_i16(x: int) -> i16 {
    if x < i16::MIN {
        i16::MIN
    } else if x > i16::MAX {
        i16::MAX
    } else {
        x as i16
    }
}

/// A sample scaled by an integer gain, saturating at the `i16` range.
pub open spec fn gained_sample(s: i16, gain: i16) -> i16 {
    clamp_i16(s * gain)
}

/// Every sample of `s` scaled by `gain`, saturating.
pub open spec fn gained(s: Seq<i16>, gain: i16) -> Seq<i16> {
    Seq::new(s.len(), |i: int| gained_sample(s[i], gain))
}

/// Every sample of `s` with its sign flipped.
pub open spec fn inverted(s: Seq<i16>) -> Seq<i16> {
    Seq::new(s.len(), |i: int| (-s[i]) as i16)
}

/// No sample is `i16::MIN`, the one value whose negation does not fit.
pub open spec fn invertible(s: Seq<i16>) -> bool {
    forall|i: int| 0 <= i < s.len() ==> s[i] != i16::MIN
}

/// Integer gain stage: multiplies each sample by a whole-number gain.
#[allow(non_camel_case_types)]
pub struct Gain_int {
    pub gain: i16,
}

impl Gain_int {
    pub fn new(gain: i16) -> (r: Self)
        ensures
            r.gain == gain,
    {
        Self { gain }
    }

    /// Scales every sample by the gain; products outside the `i16` range
    /// saturate at `i16::MIN` / `i16::MAX`.
    pub fn process(&self, buffer: &mut [i16])
        ensures
            final(buffer)@ == gained(old(buffer)@, self.gain),
    {
        let n = buffer.len();
        let mut i: usize = 0;
        while i < n
            invariant
                n == old(buffer)@.len(),
                buffer@.len() == n,
                i <= n,
                forall|j: int| 0 <= j < i ==> buffer@[j] == gained_sample(old(buffer)@[j], self.gain),
                forall|j: int| i <= j < n ==> buffer@[j] == old(buffer)@[j],
            decreases n - i,
        {
            let s: i16 = buffer[i];
            let g: i16 = self.gain;
            assert(-1073741824 <= (s as int) * (g as int) <= 1073741824) by (nonlinear_arith)
                requires
                    -32768 <= s <= 32767,
                    -32768 <= g <= 32767,
            ;
            let product: i32 = s as i32 * g as i32;
            let clamped: i16 = if product < -32768 {
                i16::MIN
            } else if product > 32767 {
                i16::MAX
            } else {
                product as i16
            };
            buffer[i] = clamped;
            i += 1;
        }
        assert(buffer@ =~= gained(old(buffer)@, self.gain));
    }
}

/// Polarity inverter.
pub struct Invert;

impl Invert {
    /// Negates every sample. The negation of `i16::MIN` does not fit in an
    /// `i16`, so such a sample is ruled out.
    pub fn process(&self, buffer: &mut [i16])
        requires
            invertible(old(buffer)@),
        ensures
            final(buffer)@ == inverted(old(buffer)@),
    {
        let n = buffer.len();
        let mut i: usize = 0;
        while i < n
            invariant
                n == old(buffer)@.len(),
                buffer@.len() == n,
                i <= n,
                invertible(old(buffer)@),
                forall|j: int| 0 <= j < i ==> buffer@[j] == -old(buffer)@[j],
                forall|j: int| i <= j < n ==> buffer@[j] == old(buffer)@[j],
            decreases n - i,
        {
            let s = buffer[i];
            buffer[i] = -s;
            i += 1;
        }
        assert(buffer@ =~= inverted(old(buffer)@));
    }
}

/// `s` halved, rounding toward zero.
pub open spec fn halved(s: i16) -> int {
    if s >= 0 {
        s / 2
    } else {
        -((-s) / 2)
    }
}

/// Every sample halved (toward zero) and then negated.
pub open spec fn halved_inverted(s: Seq<i16>) -> Seq<i16> {
    Seq::new(s.len(), |i: int| (-halved(s[i])) as i16)
}

/// The module chain: a gain stage of one half (each sample halved, rounding
/// toward zero) followed by the polarity inverter. Halving keeps every sample
/// within ±16384, so the inversion always fits.
pub fn run_modules(buffer: &mut [i16])
    ensures
        final(buffer)@ == halved_inverted(old(buffer)@),
{
    let n = buffer.len();
    let mut i: usize = 0;
    while i < n
        invariant
            n == old(buffer)@.len(),
            buffer@.len() == n,
            i <= n,
            forall|j: int| 0 <= j < i ==> buffer@[j] == (-halved(old(buffer)@[j])) as i16,
            forall|j: int| i <= j < n ==> buffer@[j] == old(buffer)@[j],
        decreases n - i,
    {
        let s: i16 = buffer[i];
        let half: i16 = if s >= 0 {
            s / 2
        } else {
            -((-(s as i32)) / 2) as i16
        };
        buffer[i] = -half;
        i += 1;
    }
    assert(buffer@ =~= halved_inverted(old(buffer)@));
}

/// Inverting twice gives back the block it started from.
pub proof fn lemma_invert_twice(s: Seq<i16>)
    requires
        invertible(s),
    ensures
        invertible(inverted(s)),
        inverted(inverted(s)) == s,
{
    assert(inverted(inverted(s)) =~= s);
}

/// A gain of one leaves a block unchanged and a gain of zero silences it.
pub proof fn lemma_unit_and_zero_gain(s: Seq<i16>)
    ensures
        gained(s, 1) == s,
        gained(s, 0) == Seq::new(s.len(), |i: int| 0i16),
{
    assert(gained(s, 1) =~= s);
    assert(gained(s, 0) =~= Seq::new(s.len(), |i: int| 0i16));
}

/// Each sample of a gained block is the input sample times the gain when the
/// product fits in an `i16`, and the nearest end of the `i16` range when it
/// does not.
pub proof fn lemma_gain_multiplies(s: Seq<i16>, gain: i16)
    ensures
        gained(s, gain).len() == s.len(),
        forall|i: int|
            0 <= i < s.len() ==> {
                let p = s[i] as int * gain as int;
                &&& (-32768 <= p <= 32767 ==> #[trigger] gained(s, gain)[i] as int == p)
                &&& (p > 32767 ==> gained(s, gain)[i] == 32767)
                &&& (p < -32768 ==> gained(s, gain)[i] == -32768)
            },
{
}

/// Each sample of an inverted block is the negation of the input sample.
pub proof fn lemma_invert_negates(s: Seq<i16>)
    requires
        invertible(s),
    ensures
        inverted(s).len() == s.len(),
        forall|i: int| 0 <= i < s.len() ==> #[trigger] inverted(s)[i] as int == -(s[i] as int),
        forall|i: int| 0 <= i < s.len() ==> inverted(s)[i] as int + s[i] as int == 0,
{
}

/// Each sample out of the module chain, negated and doubled, gives back the
/// input sample, less one unit toward zero when the input is odd: the chain
/// halves toward zero and flips the sign.
pub proof fn lemma_modules_halve_and_invert(s: Seq<i16>)
    ensures
        halved_inverted(s).len() == s.len(),
        forall|i: int|
            0 <= i < s.len() ==> {
                let h = -(#[trigger] halved_inverted(s)[i] as int);
                ||| 2 * h == s[i] as int
                ||| (s[i] > 0 && 2 * h == s[i] as int - 1)
                ||| (s[i] < 0 && 2 * h == s[i] as int + 1)
            },
{
}

} // verus!
