use range_coder::error::RangeCoderError;
use range_coder::freq_table::FreqTable;
use range_coder::session::{decode_all, encode_all};
use range_coder::{Decoder, Encoder, PModel, RangeCoder};
use std::collections::VecDeque;

/// A model with given counts.
struct Counts {
    c: Vec<u32>,
    cum: Vec<u32>,
    total: u32,
}

impl Counts {
    fn new(c: &[u32]) -> Self {
        let mut cum = Vec::new();
        let mut total = 0u32;
        for &count in c {
            cum.push(total);
            total += count;
        }
        Counts { c: c.to_vec(), cum, total }
    }
}

impl PModel for Counts {
    fn c_freq(&self, index: usize) -> u32 {
        self.c[index]
    }

    fn cum_freq(&self, index: usize) -> u32 {
        self.cum[index]
    }

    fn total_freq(&self) -> u32 {
        self.total
    }

    fn find_index(&self, decoder: &Decoder) -> usize {
        let unit = decoder.range_coder().range_par_total(self.total);
        let observed = (decoder.data() - decoder.range_coder().lower_bound()) / unit;
        let target = observed.min(self.total as u64 - 1);
        (0..self.c.len())
            .find(|&i| self.cum[i] as u64 <= target && target < self.cum[i] as u64 + self.c[i] as u64)
            .unwrap()
    }
}

fn table_of(alphabet_count: usize, data: &[usize]) -> FreqTable {
    let mut table = FreqTable::new(alphabet_count);
    for &i in data {
        table.add_alphabet(i);
    }
    table.finalize();
    table
}

fn encode_counting<T: PModel>(model: &T, data: &[usize]) -> Result<(VecDeque<u8>, Vec<u32>), RangeCoderError> {
    let mut encoder = Encoder::new();
    let mut counts = Vec::new();
    for &i in data {
        counts.push(encoder.encode(model, i)?);
    }
    Ok((encoder.finish(), counts))
}

fn decode_each<T: PModel>(model: &T, code: VecDeque<u8>, count: usize) -> Result<Vec<usize>, RangeCoderError> {
    assert!(code.len() >= 8);
    let mut decoder = Decoder::new(code);
    let mut decoded = Vec::new();
    for _ in 0..count {
        decoded.push(decoder.decode(model)?);
    }
    Ok(decoded)
}

#[test]
fn test_encode_and_decode() {
    let test_data = vec![2, 1, 1, 3, 1, 4, 2, 1, 0, 1, 5, 9, 8, 7, 6, 5];
    let mut sd = FreqTable::new(10);
    for &i in &test_data {
        sd.add_alphabet(i);
    }
    sd.finalize();
    println!("FREQ TABLE");
    for i in 0..sd.alphabet_params().len() {
        println!("index:{},c:{},cum:{}", i, sd.c_freq(i), sd.cum_freq(i));
    }
    println!("\nSTART ENCODING");
    let mut encoder = Encoder::new();
    for &i in &test_data {
        encoder.encode::<FreqTable>(&sd, i).unwrap();
    }
    let code = encoder.finish();
    println!("\nlength : {}byte", code.len());

    let mut decoder = Decoder::new(code);
    println!("START DECODING");
    let mut decodeds = vec![0; test_data.len()];
    for i in 0..test_data.len() {
        let decoded = decoder.decode(&sd).unwrap();
        decodeds[i] = decoded;
    }
    assert_eq!(decodeds, test_data);
    println!("test passed");
}

#[test]
fn sixteen_symbols_of_ten_round_trip() {
    let data = vec![2, 1, 1, 4, 1, 4, 2, 1, 0, 1, 5, 9, 8, 7, 6, 5];
    let table = table_of(10, &data);
    let (code, counts) = encode_counting(&table, &data).unwrap();
    let expected: Vec<u8> =
        vec![0x64, 0x47, 0x5f, 0x89, 0x70, 0x36, 0x5a, 0x2f, 0x83, 0xb2, 0x02, 0x46, 0xc0];
    assert_eq!(code.iter().copied().collect::<Vec<u8>>(), expected);
    assert_eq!(counts, vec![0, 0, 0, 1, 0, 0, 1, 0, 0, 0, 1, 0, 1, 0, 1, 0]);
    assert_eq!(decode_each(&table, code, data.len()), Ok(data));
}

#[test]
fn encoding_twice_gives_the_same_bytes() {
    let data = vec![2, 1, 1, 4, 1, 4, 2, 1, 0, 1, 5, 9, 8, 7, 6, 5];
    let table = table_of(10, &data);
    let counts = Counts::new(&[1, 5, 2, 0, 2, 2, 1, 1, 1, 1]);
    let first = encode_counting(&table, &data).unwrap();
    let second = encode_counting(&table, &data).unwrap();
    let third = encode_counting(&counts, &data).unwrap();
    assert_eq!(first, second);
    assert_eq!(first, third);
}

#[test]
fn different_sequences_give_different_streams() {
    let table = table_of(3, &[0, 1, 1, 2]);
    let mut streams = Vec::new();
    for a in 0..3 {
        for b in 0..3 {
            for c in 0..3 {
                let (code, _) = encode_counting(&table, &[a, b, c]).unwrap();
                assert!(!streams.contains(&code));
                streams.push(code);
            }
        }
    }
    assert_eq!(streams.len(), 27);
}

#[test]
fn decoder_takes_every_byte_of_the_stream() {
    let data = vec![2, 1, 1, 4, 1, 4, 2, 1, 0, 1, 5, 9, 8, 7, 6, 5];
    let table = table_of(10, &data);
    let mut encoder = Encoder::new();
    let mut emitted = 0usize;
    for &i in &data {
        let before = encoder.peek_code().len();
        let n = encoder.encode(&table, i).unwrap() as usize;
        assert_eq!(encoder.peek_code().len(), before + n);
        emitted += n;
    }
    let code = encoder.finish();
    assert_eq!(code.len(), emitted + 8);

    let mut extended = code.clone();
    extended.extend([0xaa, 0xbb, 0xcc]);
    let mut decoder = Decoder::new(extended);
    let mut mirror = RangeCoder::new();
    let mut taken = 8usize;
    for &i in &data {
        let bytes = mirror
            .param_update(table.c_freq(i), table.cum_freq(i), table.total_freq())
            .unwrap();
        assert_eq!(decoder.decode(&table), Ok(i));
        taken += bytes.len();
        assert_eq!(decoder.range_coder().lower_bound(), mirror.lower_bound());
        assert_eq!(decoder.range_coder().range(), mirror.range());
    }
    assert_eq!(taken, code.len());
    assert_eq!(decoder.data(), mirror.lower_bound());
}

#[test]
fn alphabet_of_one_symbol_emits_nothing() {
    let data = vec![0usize; 5];
    let table = table_of(1, &data);
    assert_eq!(table.total_freq(), 5);
    let (code, counts) = encode_counting(&table, &data).unwrap();
    assert_eq!(counts, vec![0; 5]);
    assert_eq!(code.iter().copied().collect::<Vec<u8>>(), vec![0u8; 8]);
    assert_eq!(decode_each(&table, code, 5), Ok(data));
}

#[test]
fn empty_sequence_is_the_flush_alone() {
    let table = table_of(2, &[0, 1]);
    let (code, counts) = encode_counting(&table, &[]).unwrap();
    assert!(counts.is_empty());
    assert_eq!(code.len(), 8);
    assert_eq!(decode_each(&table, code, 0), Ok(vec![]));
}

#[test]
fn extreme_skew_round_trips_through_range_reduction() {
    let model = Counts::new(&[1, (1u32 << 31) - 1]);
    assert_eq!(model.total_freq(), 1 << 31);

    let data = vec![0usize, 1, 0, 1, 1, 0];
    let (code, counts) = encode_counting(&model, &data).unwrap();
    assert_eq!(counts, vec![3, 0, 4, 0, 0, 4]);
    let expected: Vec<u8> = vec![
        0x00, 0x00, 0x00, 0x00, 0x00, 0x00, 0x00, 0x03, 0xff, 0xff, 0xff, 0x0f, 0xff, 0xff, 0xfb,
        0x00, 0x00, 0x00, 0x00,
    ];
    assert_eq!(code.iter().copied().collect::<Vec<u8>>(), expected);
    assert_eq!(decode_each(&model, code, data.len()), Ok(data));

    let data = vec![1usize, 1, 0, 1];
    let (code, counts) = encode_counting(&model, &data).unwrap();
    assert_eq!(counts, vec![0, 0, 3, 0]);
    let expected: Vec<u8> =
        vec![0x00, 0x00, 0x00, 0x03, 0xff, 0xff, 0xff, 0xfe, 0xff, 0xff, 0xff];
    assert_eq!(code.iter().copied().collect::<Vec<u8>>(), expected);
    assert_eq!(decode_each(&model, code, data.len()), Ok(data));

    let data = vec![1usize, 0, 0, 1, 0];
    let mut mirror = RangeCoder::new();
    assert_eq!(mirror.param_update(model.c_freq(1), model.cum_freq(1), 1 << 31), Ok(vec![]));
    assert_eq!(mirror.param_update(1, 0, 1 << 31), Ok(vec![0x00, 0x00, 0x00]));
    assert_eq!((mirror.lower_bound(), mirror.range()), (0x01ff_ffff_ff00_0000, 0x01ff_ffff_fc00_0000));
    assert_eq!(mirror.param_update(1, 0, 1 << 31), Ok(vec![0x01, 0xff, 0xff, 0xff]));
    assert_eq!((mirror.lower_bound(), mirror.range()), (0xff00_0000_0000_0000, 0x00ff_ffff_ffff_ff00));
    let (code, counts) = encode_counting(&model, &data).unwrap();
    assert_eq!(counts, vec![0, 3, 4, 1, 3]);
    let expected: Vec<u8> = vec![
        0x00, 0x00, 0x00, 0x01, 0xff, 0xff, 0xff, 0xff, 0x00, 0x00, 0x00, 0x01, 0xff, 0xff, 0xff,
        0x00, 0x00, 0x00, 0x00,
    ];
    assert_eq!(code.iter().copied().collect::<Vec<u8>>(), expected);
    assert_eq!(decode_each(&model, code, data.len()), Ok(data));

    for length in 1..9usize {
        for bits in 0..(1usize << length) {
            let data: Vec<usize> = (0..length).map(|k| (bits >> k) & 1).collect();
            let (code, _) = encode_counting(&model, &data).unwrap();
            assert_eq!(decode_each(&model, code, length), Ok(data));
        }
    }
}

#[test]
fn symbol_that_was_never_counted_cannot_be_encoded() {
    let table = table_of(10, &[2, 1, 1, 4, 1, 4, 2, 1, 0, 1, 5, 9, 8, 7, 6, 5]);
    let mut encoder = Encoder::new();
    assert_eq!(
        encoder.encode(&table, 3),
        Err(RangeCoderError::UpperBoundOverflow { lower_bound: 0x7fff_ffff_ffff_fff8, range: 0 })
    );
    assert!(encoder.peek_code().is_empty());
}

#[test]
fn interval_that_fills_a_top_byte_cell_stops_the_session() {
    let model = Counts::new(&[1 << 24, 1]);
    let mut encoder = Encoder::new();
    assert_eq!(encoder.encode(&model, 0), Ok(0));
    assert_eq!(
        encoder.encode(&model, 1),
        Err(RangeCoderError::UpperBoundOverflow { lower_bound: 0, range: 0 })
    );
}

#[test]
fn stream_that_ends_early_is_malformed() {
    let data = vec![2, 1, 1, 4, 1, 4, 2, 1, 0, 1, 5, 9, 8, 7, 6, 5];
    let table = table_of(10, &data);
    let (code, _) = encode_counting(&table, &data).unwrap();
    for cut in 8..code.len() {
        let short: VecDeque<u8> = code.iter().copied().take(cut).collect();
        assert_eq!(decode_each(&table, short, data.len()), Err(RangeCoderError::MalformedStream));
    }
}

#[test]
fn window_below_the_interval_is_malformed() {
    let table = table_of(10, &[2, 1, 1, 4, 1, 4, 2, 1, 0, 1, 5, 9, 8, 7, 6, 5]);
    let code: VecDeque<u8> =
        vec![146, 0, 18, 109, 255, 26, 0, 0, 255, 70, 246, 255, 24, 255].into_iter().collect();
    let mut decoder = Decoder::new(code);
    for expected in [4usize, 4, 4, 0, 0] {
        assert!(decoder.data() >= decoder.range_coder().lower_bound());
        assert_eq!(decoder.decode(&table), Ok(expected));
    }
    assert_eq!(decoder.data(), 0x0000_ff46_f6ff_18ff);
    assert_eq!(decoder.range_coder().lower_bound(), 0xffe8_0000_0000_0000);
    assert_eq!(decoder.range_coder().range(), 0x0017_ffff_ffff_ff00);
    assert_eq!(decoder.decode(&table), Err(RangeCoderError::MalformedStream));
    assert_eq!(decoder.data(), 0x0000_ff46_f6ff_18ff);
    assert_eq!(decoder.range_coder().lower_bound(), 0xffe8_0000_0000_0000);
    assert_eq!(decoder.decode(&table), Err(RangeCoderError::MalformedStream));
}

#[test]
fn window_at_either_end_of_the_interval_is_decoded() {
    let table = table_of(2, &[0, 1]);
    let mut low = Decoder::new(vec![0x00; 8].into_iter().collect());
    assert_eq!(low.decode(&table), Ok(0));
    let mut high = Decoder::new(vec![0xff; 8].into_iter().collect());
    assert_eq!(high.data(), u64::MAX);
    assert_eq!(high.decode(&table), Ok(1));
    assert_eq!(high.range_coder().lower_bound(), 0x7fff_ffff_ffff_ffff);
    let mut middle = Decoder::new(vec![0x80, 0, 0, 0, 0, 0, 0, 0].into_iter().collect());
    assert_eq!(middle.decode(&table), Ok(1));
    assert_eq!(middle.data(), 0x8000_0000_0000_0000);
}

#[test]
fn new_decoder_loads_eight_bytes() {
    let code: VecDeque<u8> = vec![1, 2, 3, 4, 5, 6, 7, 8, 9, 10].into_iter().collect();
    let decoder = Decoder::new(code);
    assert_eq!(decoder.data(), 0x0102_0304_0506_0708);
    assert_eq!(decoder.range_coder().lower_bound(), 0);
    assert_eq!(decoder.range_coder().range(), u64::MAX);
}

#[test]
fn new_encoder_has_emitted_nothing() {
    let encoder = Encoder::new();
    assert!(encoder.peek_code().is_empty());
    assert_eq!(encoder.range_coder().lower_bound(), 0);
    assert_eq!(encoder.range_coder().range(), u64::MAX);
    assert_eq!(encoder.finish().len(), 8);
    assert!(Encoder::default().peek_code().is_empty());
}

#[test]
fn whole_sessions_agree_with_their_steps() {
    let data = vec![2, 1, 1, 4, 1, 4, 2, 1, 0, 1, 5, 9, 8, 7, 6, 5];
    let table = table_of(10, &data);
    let code = encode_all(&table, &data).unwrap();
    assert_eq!(code, encode_counting(&table, &data).unwrap().0);
    assert_eq!(decode_all(&table, code.clone(), data.len()), Ok(data.clone()));
    assert_eq!(decode_all(&table, code.clone(), 3), Ok(vec![2, 1, 1]));
    assert_eq!(decode_all(&table, code, 0), Ok(vec![]));
}

#[test]
fn whole_sessions_report_what_stopped_them() {
    let table = table_of(10, &[2, 1, 1, 4, 1, 4, 2, 1, 0, 1, 5, 9, 8, 7, 6, 5]);
    assert_eq!(
        encode_all(&table, &[2, 3, 1]),
        Err(RangeCoderError::UpperBoundOverflow { lower_bound: 0x6fff_ffff_ffff_fff2, range: 0 })
    );
    let code = encode_all(&table, &[2, 1, 1, 4]).unwrap();
    assert_eq!(code.len(), 9);
    assert_eq!(decode_all(&table, code, 16), Err(RangeCoderError::MalformedStream));
    let model = Counts::new(&[1 << 24, 1]);
    assert_eq!(
        encode_all(&model, &[0, 1]),
        Err(RangeCoderError::UpperBoundOverflow { lower_bound: 0, range: 0 })
    );
    assert_eq!(encode_all(&model, &[0, 0]).map(|code| code.len()), Ok(8));
}
