use range_coder::alphabet_param::AlphabetParam;
use range_coder::freq_table::FreqTable;
use range_coder::{Decoder, Encoder, PModel};
use std::collections::VecDeque;

fn table_of(alphabet_count: usize, data: &[usize]) -> FreqTable {
    let mut table = FreqTable::new(alphabet_count);
    for &i in data {
        table.add_alphabet(i);
    }
    table.finalize();
    table
}

#[test]
fn alphabet_param_holds_what_is_set() {
    let mut param = AlphabetParam::new();
    assert_eq!((param.c(), param.cum()), (0, 0));
    param.set_c(7);
    param.set_cum(9);
    assert_eq!((param.c(), param.cum()), (7, 9));
    param.add();
    assert_eq!((param.c(), param.cum()), (8, 9));
}

#[test]
fn new_table_has_counted_nothing() {
    let table = FreqTable::new(4);
    assert_eq!(table.alphabet_count(), 4);
    assert_eq!(table.total_freq(), 0);
    for param in table.alphabet_params() {
        assert_eq!((param.c(), param.cum()), (0, 0));
    }
    assert_eq!(FreqTable::new(0).alphabet_count(), 0);
    assert_eq!(FreqTable::new(10000).alphabet_count(), 10000);
}

#[test]
fn finalize_sums_the_counts() {
    let table = table_of(10, &[2, 1, 1, 4, 1, 4, 2, 1, 0, 1, 5, 9, 8, 7, 6, 5]);
    let c: Vec<u32> = (0..10).map(|i| table.c_freq(i)).collect();
    let cum: Vec<u32> = (0..10).map(|i| table.cum_freq(i)).collect();
    assert_eq!(c, vec![1, 5, 2, 0, 2, 2, 1, 1, 1, 1]);
    assert_eq!(cum, vec![0, 1, 6, 8, 8, 10, 12, 13, 14, 15]);
    assert_eq!(table.total_freq(), 16);
    assert_eq!(table.alphabet_params().len(), 10);
    assert_eq!(table.alphabet_params()[4].cum(), 8);
}

#[test]
fn counting_leaves_cumulative_counts_stale() {
    let mut table = table_of(3, &[0, 1, 2]);
    table.add_alphabet(0);
    assert_eq!(table.c_freq(0), 2);
    assert_eq!(table.cum_freq(1), 1);
    assert_eq!(table.total_freq(), 3);
    table.finalize();
    assert_eq!(table.cum_freq(1), 2);
    assert_eq!(table.total_freq(), 4);
}

#[test]
fn search_finds_the_symbol_of_each_target() {
    let table = table_of(10, &[2, 1, 1, 4, 1, 4, 2, 1, 0, 1, 5, 9, 8, 7, 6, 5]);
    let unit: u64 = u64::MAX / 16;
    let expected = [0usize, 1, 1, 1, 1, 1, 2, 2, 4, 4, 5, 5, 6, 7, 8, 9];
    for (target, &index) in expected.iter().enumerate() {
        for window in [unit * target as u64, unit * target as u64 + unit - 1] {
            let code: VecDeque<u8> = window.to_be_bytes().into_iter().collect();
            let decoder = Decoder::new(code);
            assert_eq!(decoder.data(), window);
            assert_eq!(table.find_index(&decoder), index);
        }
    }
}

#[test]
fn remainder_of_the_division_belongs_to_the_top_symbol() {
    let table = table_of(3, &[0, 1, 1]);
    let code: VecDeque<u8> = vec![0xff; 8].into_iter().collect();
    let decoder = Decoder::new(code);
    assert_eq!(u64::MAX / (u64::MAX / 3), 3);
    assert_eq!(table.find_index(&decoder), 1);
    let mut encoder = Encoder::new();
    assert_eq!(encoder.encode(&table, 1), Ok(0));
}
