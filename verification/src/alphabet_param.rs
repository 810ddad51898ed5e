//! The frequency parameters of one symbol.
use vstd::prelude::*;

verus! {

/// How often a symbol occurs, and how often the symbols ordered before it
/// occur together.
#[derive(Clone, Copy, Debug)]
pub struct AlphabetParam {
    /// The count of all symbols ordered before this one.
    pub cum: u32,
    /// The count of this symbol.
    pub c: u32,
}

impl AlphabetParam {
    pub fn new() -> (param: Self)
        ensures
            param.c == 0,
            param.cum == 0,
    {
        AlphabetParam { cum: 0, c: 0 }
    }

    pub fn c(&self) -> (c: u32)
        ensures
            c == self.c,
    {
        self.c
    }

    pub fn cum(&self) -> (cum: u32)
        ensures
            cum == self.cum,
    {
        self.cum
    }

    pub fn set_c(&mut self, c: u32)
        ensures
            final(self).c == c,
            final(self).cum == old(self).cum,
    {
        self.c = c;
    }

    pub fn set_cum(&mut self, cum: u32)
        ensures
            final(self).cum == cum,
            final(self).c == old(self).c,
    {
        self.cum = cum;
    }

    /// Counts one more occurrence.
    pub fn add(&mut self)
        requires
            old(self).c < u32::MAX,
        ensures
            final(self).c == old(self).c + 1,
            final(self).cum == old(self).cum,
    {
        self.c += 1;
    }
}

} // verus!
