use vstd::prelude::*;
use vstd::arithmetic::power2::pow2;

verus! {

/// `bits` limited to the supported depths 1 to 16.
pub open spec fn clamp_bits(bits: u8) -> u8 {
    if bits < 1 {
        1
    } else if bits > 16 {
        16
    } else {
        bits
    }
}

/// Bit-depth reducer: keeps the depth and the matching number of
/// quantisation levels (`2^bits`).
pub struct BitCrush {
    bits: u8,
    levels: u32,
}

impl BitCrush {
    /// The bit depth in use.
    pub closed spec fn spec_bits(&self) -> u8 {
        self.bits
    }

    /// The number of quantisation levels.
    pub closed spec fn spec_levels(&self) -> u32 {
        self.levels
    }

    fn levels_for(bits: u8) -> (r: u32)
        requires
            1 <= bits <= 16,
        ensures
            r == pow2(bits as nat),
    {
        proof {
            vstd::bits::lemma_u32_pow2_no_overflow(bits as nat);
            vstd::bits::lemma_u32_shl_is_mul(1, bits as u32);
        }
        1u32 << (bits as u32)
    }

    /// A crusher at `bits` bits, limited to 1–16.
    pub fn new(bits: u8) -> (r: Self)
        ensures
            r.spec_bits() == clamp_bits(bits),
            r.spec_levels() == pow2(clamp_bits(bits) as nat),
    {
        let bits = if bits < 1 {
            1
        } else if bits > 16 {
            16
        } else {
            bits
        };
        let levels = Self::levels_for(bits);
        Self { bits, levels }
    }

    /// Changes the bit depth, limited to 1–16.
    pub fn set_bits(&mut self, bits: u8)
        ensures
            final(self).spec_bits() == clamp_bits(bits),
            final(self).spec_levels() == pow2(clamp_bits(bits) as nat),
    {
        self.bits = if bits < 1 {
            1
        } else if bits > 16 {
            16
        } else {
            bits
        };
        self.levels = Self::levels_for(self.bits);
    }

    /// The bit depth.
    pub fn bits(&self) -> (r: u8)
        ensures
            r == self.spec_bits(),
    {
        self.bits
    }

    /// The number of quantisation levels.
    pub fn levels(&self) -> (r: u32)
        ensures
            r == self.spec_levels(),
    {
        self.levels
    }
}

/// Whatever depth is asked for, the crusher works at 1 to 16 bits with
/// between 2 and 65536 levels.
pub proof fn lemma_depth_in_range(bits: u8)
    ensures
        1 <= clamp_bits(bits) <= 16,
        2 <= pow2(clamp_bits(bits) as nat) <= 65536,
{
    let b = clamp_bits(bits) as nat;
    vstd::arithmetic::power2::lemma_pow2_pos(0);
    vstd::arithmetic::power2::lemma2_to64();
    if b > 1 {
        vstd::arithmetic::power2::lemma_pow2_strictly_increases(1, b);
    }
    if b < 16 {
        vstd::arithmetic::power2::lemma_pow2_strictly_increases(b, 16);
    }
}

/// A depth of 1 to 16 bits is kept as asked; below that it becomes 1 and above
/// it 16.
pub proof fn lemma_depth_clamped(bits: u8)
    ensures
        1 <= bits <= 16 ==> clamp_bits(bits) == bits,
        bits == 0 ==> clamp_bits(bits) == 1,
        bits > 16 ==> clamp_bits(bits) == 16,
{
}

} // verus!
