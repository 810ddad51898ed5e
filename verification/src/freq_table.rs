//! A static frequency table: the plainest probability model.
use vstd::prelude::*;
use crate::alphabet_param::AlphabetParam;
use crate::decoder::Decoder;
use crate::pmodel::{FreqModel, PModel};

verus! {

/// The largest alphabet that a table takes.
pub const MAX_ALPHABET_COUNT: usize = 10000;

/// The count of the first `n` symbols together.
pub open spec fn count_sum(params: Seq<AlphabetParam>, n: int) -> int
    decreases n,
{
    if n <= 0 {
        0
    } else {
        count_sum(params, n - 1) + params[n - 1].c
    }
}

/// The running count never decreases.
pub proof fn lemma_count_sum_increases(params: Seq<AlphabetParam>, i: int, j: int)
    requires
        0 <= i <= j,
    ensures
        0 <= count_sum(params, i) <= count_sum(params, j),
    decreases j,
{
    if i < j {
        lemma_count_sum_increases(params, i, j - 1);
    } else if 0 < i {
        lemma_count_sum_increases(params, i - 1, i - 1);
    }
}

/// Counting one occurrence of a symbol raises the running count of every
/// prefix that holds the symbol by one.
pub proof fn lemma_count_sum_counted(params: Seq<AlphabetParam>, index: int, n: int)
    requires
        0 <= index < params.len(),
        0 <= n <= params.len(),
        params[index].c < u32::MAX,
    ensures
        count_sum(
            params.update(
                index,
                (AlphabetParam { cum: params[index].cum, c: (params[index].c + 1) as u32 }),
            ),
            n,
        ) == count_sum(params, n) + if index < n {
            1int
        } else {
            0int
        },
    decreases n,
{
    if 0 < n {
        lemma_count_sum_counted(params, index, n - 1);
    }
}

/// A table of symbol counts. Symbols are counted with `add_alphabet`; then
/// `finalize` fills in the cumulative counts and the total, and the table can
/// drive a coder.
pub struct FreqTable {
    total_freq: u32,
    alphabet_params: Vec<AlphabetParam>,
}

impl FreqTable {
    /// The parameters of the symbols, in the order of the alphabet.
    pub closed spec fn params(&self) -> Seq<AlphabetParam> {
        self.alphabet_params@
    }

    /// The total as last computed by `finalize`.
    pub closed spec fn total(&self) -> u32 {
        self.total_freq
    }

    /// A table of `alphabet_count` symbols, none of them counted yet.
    pub fn new(alphabet_count: usize) -> (table: Self)
        requires
            alphabet_count <= MAX_ALPHABET_COUNT,
        ensures
            table.params() == Seq::new(
                alphabet_count as nat,
                |i: int| (AlphabetParam { cum: 0, c: 0 }),
            ),
            table.total() == 0,
    {
        let mut alphabet_params: Vec<AlphabetParam> = Vec::new();
        let mut i: usize = 0;
        while i < alphabet_count
            invariant
                i <= alphabet_count,
                alphabet_params@ == Seq::new(i as nat, |i: int| (AlphabetParam { cum: 0, c: 0 })),
            decreases alphabet_count - i,
        {
            alphabet_params.push(AlphabetParam::new());
            proof {
                assert(alphabet_params@ =~= Seq::new(
                    (i + 1) as nat,
                    |i: int| (AlphabetParam { cum: 0, c: 0 }),
                ));
            }
            i = i + 1;
        }
        FreqTable { total_freq: 0, alphabet_params }
    }

    /// The parameters of the symbols.
    pub fn alphabet_params(&self) -> (params: &[AlphabetParam])
        ensures
            params@ == self.params(),
    {
        self.alphabet_params.as_slice()
    }

    /// The size of the alphabet.
    pub fn alphabet_count(&self) -> (count: usize)
        ensures
            count == self.params().len(),
    {
        self.alphabet_params.len()
    }

    /// Counts one occurrence of a symbol. The cumulative counts and the
    /// total are stale until the next `finalize`.
    pub fn add_alphabet(&mut self, alphabet_index: usize)
        requires
            alphabet_index < old(self).params().len(),
            old(self).params()[alphabet_index as int].c < u32::MAX,
        ensures
            final(self).params() == old(self).params().update(
                alphabet_index as int,
                (AlphabetParam {
                    cum: old(self).params()[alphabet_index as int].cum,
                    c: (old(self).params()[alphabet_index as int].c + 1) as u32,
                }),
            ),
            final(self).total() == old(self).total(),
    {
        let mut param: AlphabetParam = self.alphabet_params[alphabet_index];
        param.add();
        self.alphabet_params.set(alphabet_index, param);
    }

    /// Fills in the cumulative counts and the total. The table is finalized
    /// afterwards if it has counted anything.
    pub fn finalize(&mut self)
        requires
            count_sum(old(self).params(), old(self).params().len() as int) <= u32::MAX,
        ensures
            final(self).params().len() == old(self).params().len(),
            forall|i: int|
                0 <= i < old(self).params().len() ==> {
                    &&& (#[trigger] final(self).params()[i]).c == old(self).params()[i].c
                    &&& final(self).params()[i].cum == count_sum(old(self).params(), i)
                },
            final(self).total() == count_sum(old(self).params(), old(self).params().len() as int),
            final(self).params().len() > 0 && final(self).total() > 0
                ==> final(self).model().finalized(),
    {
        let mut cum_total: u32 = 0;
        let n: usize = self.alphabet_params.len();
        let mut i: usize = 0;
        while i < n
            invariant
                i <= n == self.params().len() == old(self).params().len(),
                count_sum(old(self).params(), n as int) <= u32::MAX,
                cum_total == count_sum(old(self).params(), i as int),
                forall|j: int| 0 <= j < n ==> (#[trigger] self.params()[j]).c == old(self).params()[j].c,
                forall|j: int|
                    0 <= j < i ==> (#[trigger] self.params()[j]).cum == count_sum(
                        old(self).params(),
                        j,
                    ),
            decreases n - i,
        {
            let mut param: AlphabetParam = self.alphabet_params[i];
            param.set_cum(cum_total);
            self.alphabet_params.set(i, param);
            proof {
                lemma_count_sum_increases(old(self).params(), i + 1, n as int);
            }
            cum_total += param.c();
            i = i + 1;
        }
        self.total_freq = cum_total;
        proof {
            if n > 0 && cum_total > 0 {
                let model = self.model();
                assert forall|i: int| 0 < i < model.c.len() implies #[trigger] model.cum[i]
                    == model.cum[i - 1] + model.c[i - 1] by {
                    assert(self.params()[i].cum == count_sum(old(self).params(), i));
                    assert(self.params()[i - 1].cum == count_sum(old(self).params(), i - 1));
                    assert(self.params()[i - 1].c == old(self).params()[i - 1].c);
                }
                assert(self.params()[0].cum == count_sum(old(self).params(), 0));
                assert(self.params()[n - 1].cum == count_sum(old(self).params(), n - 1));
                assert(self.params()[n - 1].c == old(self).params()[n - 1].c);
            }
        }
    }
}

impl PModel for FreqTable {
    open spec fn model(&self) -> FreqModel {
        FreqModel {
            c: Seq::new(self.params().len(), |i: int| self.params()[i].c),
            cum: Seq::new(self.params().len(), |i: int| self.params()[i].cum),
            total: self.total(),
        }
    }

    fn c_freq(&self, index: usize) -> (c: u32) {
        self.alphabet_params[index].c()
    }

    fn cum_freq(&self, index: usize) -> (cum: u32) {
        self.alphabet_params[index].cum()
    }

    fn total_freq(&self) -> (total: u32) {
        self.total_freq
    }

    /// Binary search over the cumulative counts.
    fn find_index(&self, decoder: &Decoder) -> (index: usize) {
        let total: u32 = self.total_freq();
        let unit: u64 = decoder.range_coder().range_par_total(total);
        proof {
            let range = decoder@.interval.range as int;
            let t = total as int;
            assert(range / t >= 1) by (nonlinear_arith)
                requires
                    range >= t,
                    t > 0,
            ;
        }
        let observed: u64 = (decoder.data() - decoder.range_coder().lower_bound()) / unit;
        let rfreq: u64 = if observed < total as u64 {
            observed
        } else {
            (total - 1) as u64
        };
        let mut left: usize = 0;
        let mut right: usize = self.alphabet_count() - 1;
        let ghost model = self.model();
        while left < right
            invariant
                model == self.model(),
                model.finalized(),
                left <= right < model.len(),
                rfreq < model.total,
                model.cum[left as int] <= rfreq,
                right + 1 < model.len() ==> rfreq < model.cum[right + 1],
            decreases right - left,
        {
            let mid: usize = left + (right - left) / 2;
            let mid_cum: u32 = self.cum_freq(mid + 1);
            if mid_cum as u64 <= rfreq {
                left = mid + 1;
            } else {
                right = mid;
            }
        }
        proof {
            if right + 1 < model.len() {
                assert(model.cum[right + 1] == model.cum[right as int] + model.c[right as int]);
            }
        }
        left
    }
}

} // verus!
