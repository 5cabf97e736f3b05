use vstd::prelude::*;

verus! {

/// One effect per channel: the left a clone of the given effect, the right
/// the effect itself.
pub struct Stereo<E> {
    left: E,
    right: E,
}

impl<E: Clone> Stereo<E> {
    /// The left channel's effect.
    pub closed spec fn spec_left(&self) -> E {
        self.left
    }

    /// The right channel's effect.
    pub closed spec fn spec_right(&self) -> E {
        self.right
    }

    /// Splits `effect` into a left copy (by `clone`) and the effect itself on the right.
    pub fn new(effect: E) -> (r: Self)
        ensures
            cloned(effect, r.spec_left()),
            r.spec_right() == effect,
    {
        let left = effect.clone();
        let right = effect;
        Self { left, right }
    }

    /// Mutable access to both channels' effects, left then right.
    pub fn channels_mut(&mut self) -> (r: (&mut E, &mut E))
        ensures
            *r.0 == old(self).spec_left(),
            *r.1 == old(self).spec_right(),
            final(self).spec_left() == *final(r.0),
            final(self).spec_right() == *final(r.1),
    {
        (&mut self.left, &mut self.right)
    }
}

} // verus!
