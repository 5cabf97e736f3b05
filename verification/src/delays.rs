use vstd::prelude::*;

verus! {

/// A busy-wait delay clocked from the CPU frequency.
pub struct BusyDelay {
    freq: u32,
}

/// Clock cycles per microsecond at `freq` Hz (whole cycles only).
pub open spec fn cycles_per_us(freq: u32) -> int {
    freq as int / 1_000_000
}

impl BusyDelay {
    /// The CPU frequency in Hz.
    pub closed spec fn spec_freq(&self) -> u32 {
        self.freq
    }

    /// A delay for a CPU running at `freq` Hz.
    pub fn new(freq: u32) -> (r: Self)
        ensures
            r.spec_freq() == freq,
    {
        Self { freq }
    }

    /// The CPU frequency in Hz.
    pub fn freq(&self) -> (r: u32)
        ensures
            r == self.spec_freq(),
    {
        self.freq
    }

    /// The number of cycles to spin for `us` microseconds.
    pub fn cycles_for_us(&self, us: u32) -> (r: u32)
        requires
            cycles_per_us(self.spec_freq()) * us <= u32::MAX,
        ensures
            r == cycles_per_us(self.spec_freq()) * us,
    {
        (self.freq / 1_000_000) * us
    }

    /// The number of cycles to spin for `ms` milliseconds.
    pub fn cycles_for_ms(&self, ms: u32) -> (r: u32)
        requires
            ms * 1000 <= u32::MAX,
            cycles_per_us(self.spec_freq()) * (ms * 1000) <= u32::MAX,
        ensures
            r == cycles_per_us(self.spec_freq()) * (ms * 1000),
    {
        self.cycles_for_us(ms * 1000)
    }
}

} // verus!
