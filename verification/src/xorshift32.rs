use vstd::prelude::*;

verus! {

/// A 32-bit xorshift pseudo-random generator.
///
/// This is the engine's deterministic randomness source: fully reproducible
/// from its seed, usable for dry-run simulation, and explicitly not a
/// security-grade generator.
pub struct Xorshift32 {
    state: u32,
}

/// One xorshift step: the successor of a generator state.
pub open spec fn xorshift_step(x: u32) -> u32 {
    let a = x ^ (x << 13u32);
    let b = a ^ (a >> 17u32);
    b ^ (b << 5u32)
}

impl Xorshift32 {
    /// The current generator state, for specifications.
    pub closed spec fn view(&self) -> u32 {
        self.state
    }

    pub fn new(seed: u32) -> (r: Self)
        ensures
            r@ == seed,
    {
        Self { state: seed }
    }

    fn next(&mut self) -> (r: u32)
        ensures
            final(self)@ == xorshift_step(old(self)@),
            r == final(self)@,
    {
        let mut x = self.state;
        x = x ^ (x << 13u32);
        x = x ^ (x >> 17u32);
        x = x ^ (x << 5u32);
        self.state = x;
        x
    }

    /// Draws a value in the inclusive range between `min` and `max`
    /// (in either order).  The result and the successor state are exact
    /// functions of the prior state, so a caller can reproduce a draw.
    pub fn random_int_in_range(&mut self, min: u32, max: u32) -> (r: u32)
        requires
            min <= max ==> max - min < u32::MAX,
            max < min ==> min - max < u32::MAX,
        ensures
            ({
                let lo = if min <= max { min } else { max };
                let hi = if min <= max { max } else { min };
                &&& lo <= r <= hi
                &&& lo == hi ==> (r == lo && final(self)@ == old(self)@)
                &&& lo < hi ==> (final(self)@ == xorshift_step(old(self)@) && r == lo
                    + xorshift_step(old(self)@) as int % (hi - lo + 1))
            }),
    {
        // Make sure min and max are in the correct order
        let (lo, hi) = if min <= max { (min, max) } else { (max, min) };
        let range = hi - lo;

        if range == 0 {
            return lo;
        }

        let random_value = self.next();
        let scaled_value = random_value % (range + 1);
        scaled_value + lo
    }
}

} // verus!
