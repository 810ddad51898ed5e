//! The probability model that drives the coder: per-symbol frequencies in a
//! fixed order, and the search that the decoder needs.
use vstd::prelude::*;
use crate::decoder::Decoder;

verus! {

/// The mathematical content of a model: for each symbol its count and the
/// count of all symbols ordered before it, and the count of all symbols.
pub struct FreqModel {
    pub c: Seq<u32>,
    pub cum: Seq<u32>,
    pub total: u32,
}

impl FreqModel {
    /// The size of the alphabet.
    pub open spec fn len(self) -> nat {
        self.c.len()
    }

    /// The cumulative counts are the running sums of the counts, and at least
    /// one symbol has been counted.
    pub open spec fn finalized(self) -> bool {
        &&& self.c.len() > 0
        &&& self.cum.len() == self.c.len()
        &&& self.cum[0] == 0
        &&& forall|i: int|
            0 < i < self.c.len() ==> #[trigger] self.cum[i] == self.cum[i - 1] + self.c[i - 1]
        &&& self.total == self.cum[self.c.len() - 1] + self.c[self.c.len() - 1]
        &&& self.total > 0
    }

    /// The index names a symbol with a count and a cumulative count.
    pub open spec fn in_alphabet(self, index: int) -> bool {
        0 <= index < self.c.len() && index < self.cum.len()
    }

    /// A symbol that the coder can encode: it is in the alphabet and has been
    /// counted at least once.
    pub open spec fn codable(self, index: int) -> bool {
        self.in_alphabet(index) && self.c[index] > 0
    }

    /// The symbol `index` is the one that a decoder's target selects. A
    /// target at or beyond the total lies in the remainder of the division,
    /// which belongs to the top symbol, as does the target `total - 1`.
    pub open spec fn locates(self, target: int, index: int) -> bool {
        let clamped = if target < self.total {
            target
        } else {
            self.total - 1
        };
        &&& 0 <= index < self.len()
        &&& self.cum[index] <= clamped < self.cum[index] + self.c[index]
    }

    /// The symbol that a target selects.
    pub open spec fn located(self, target: int) -> int {
        choose|index: int| self.locates(target, index)
    }

    /// In a finalized model the sub-ranges of the symbols follow each other
    /// in the order of the alphabet and end at the total.
    pub proof fn lemma_ordered(self, i: int, j: int)
        requires
            self.finalized(),
            0 <= i <= j < self.len(),
        ensures
            i < j ==> self.cum[i] + self.c[i] <= self.cum[j],
            self.cum[i] <= self.cum[j],
            self.cum[j] + self.c[j] <= self.total,
        decreases self.len() - i,
    {
        if j < self.len() - 1 {
            self.lemma_ordered(j + 1, self.len() - 1);
            assert(self.cum[j + 1] == self.cum[j] + self.c[j]);
        }
        if i < j {
            self.lemma_ordered(i + 1, j);
            assert(self.cum[i + 1] == self.cum[i] + self.c[i]);
        }
    }

    /// A target selects at most one symbol.
    pub proof fn lemma_locates_unique(self, target: int, i: int, j: int)
        requires
            self.finalized(),
            self.locates(target, i),
            self.locates(target, j),
        ensures
            i == j,
    {
        if i < j {
            self.lemma_ordered(i, j);
        } else if j < i {
            self.lemma_ordered(j, i);
        }
    }

    /// The symbol that a target selects is the one that `located` names.
    pub proof fn lemma_located(self, target: int, index: int)
        requires
            self.finalized(),
            self.locates(target, index),
        ensures
            self.located(target) == index,
    {
        self.lemma_locates_unique(target, index, self.located(target));
    }
}

/// A source of symbol frequencies. The coder reads a model and never changes
/// it; an adaptive model is updated by its owner between two coding steps.
pub trait PModel {
    /// What the model holds, as the coder sees it. A model that does not say
    /// holds nothing, and no verified caller can use it.
    open spec fn model(&self) -> FreqModel {
        FreqModel { c: Seq::empty(), cum: Seq::empty(), total: 0 }
    }

    /// The count of a symbol.
    fn c_freq(&self, index: usize) -> (c: u32)
        requires
            index < self.model().c.len(),
        ensures
            c == self.model().c[index as int],
    ;

    /// The count of all symbols ordered before a symbol.
    fn cum_freq(&self, index: usize) -> (cum: u32)
        requires
            index < self.model().cum.len(),
        ensures
            cum == self.model().cum[index as int],
    ;

    /// The count of all symbols.
    fn total_freq(&self) -> (total: u32)
        ensures
            total == self.model().total,
    ;

    /// The symbol in whose sub-interval the decoder's window lies.
    fn find_index(&self, decoder: &Decoder) -> (index: usize)
        requires
            self.model().finalized(),
            decoder@.interval.range >= self.model().total,
            decoder@.window >= decoder@.interval.lower_bound,
        ensures
            self.model().locates(decoder@.target(self.model().total), index as int),
    ;
}

} // verus!
