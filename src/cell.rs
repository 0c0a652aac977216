use vstd::prelude::*;

verus! {

/// A single numeric slot holding the most recent inbound reading.
///
/// The reading is kept as the bit pattern of a 32-bit float, so the cell can
/// be reasoned about exactly; the default is the pattern of `0.0`.
#[derive(Clone, Copy, Debug)]
pub struct SignalCell {
    bits: u32,
}

impl SignalCell {
    /// The value the cell holds, as float bits.
    pub closed spec fn view(&self) -> u32 {
        self.bits
    }

    /// A fresh cell holding `0.0`.
    pub fn new() -> (r: SignalCell)
        ensures
            r.view() == 0u32,
    {
        SignalCell { bits: 0 }
    }

    /// Reads the current value; reading changes nothing.
    pub fn read(&self) -> (r: u32)
        ensures
            r == self.view(),
    {
        self.bits
    }

    /// Replaces the current value.
    pub fn write(&mut self, bits: u32)
        ensures
            final(self).view() == bits,
    {
        self.bits = bits;
    }
}

} // verus!
