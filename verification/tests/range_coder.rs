use range_coder::error::RangeCoderError;
use range_coder::RangeCoder;

fn coder_at(lower_bound: u64, range: u64) -> RangeCoder {
    let mut coder = RangeCoder::new();
    coder.set_lower_bound(lower_bound);
    coder.set_range(range);
    coder
}

#[test]
fn new_coder_spans_the_register() {
    let coder = RangeCoder::new();
    assert_eq!(coder.lower_bound(), 0);
    assert_eq!(coder.range(), u64::MAX);
    assert_eq!(coder.upper_bound(), Ok(u64::MAX));
    let other = RangeCoder::default();
    assert_eq!(other.lower_bound(), 0);
    assert_eq!(other.range(), u64::MAX);
}

#[test]
fn unit_is_the_truncated_quotient() {
    let coder = RangeCoder::new();
    assert_eq!(coder.range_par_total(16), 0x0fff_ffff_ffff_ffff);
    assert_eq!(coder.range_par_total(10), 0x1999_9999_9999_9999);
    assert_eq!(coder.range_par_total(u32::MAX), 0x1_0000_0001);
    assert_eq!(coder_at(0, 5).range_par_total(7), 0);
}

#[test]
fn narrowing_takes_the_symbols_share() {
    let mut coder = RangeCoder::new();
    assert_eq!(coder.param_update(1, 0, 16), Ok(vec![]));
    assert_eq!(coder.lower_bound(), 0);
    assert_eq!(coder.range(), 0x0fff_ffff_ffff_ffff);

    let mut coder = RangeCoder::new();
    assert_eq!(coder.param_update(4, 1, 16), Ok(vec![]));
    assert_eq!(coder.lower_bound(), 0x0fff_ffff_ffff_ffff);
    assert_eq!(coder.range(), 0x3fff_ffff_ffff_fffc);

    let mut coder = RangeCoder::new();
    assert_eq!(coder.param_update(3, 5, 10), Ok(vec![]));
    assert_eq!(coder.lower_bound(), 0x7fff_ffff_ffff_fffd);
    assert_eq!(coder.range(), 0x4ccc_cccc_cccc_cccb);
}

#[test]
fn top_symbol_takes_the_remainder() {
    let mut coder = RangeCoder::new();
    assert_eq!(coder.param_update(5, 5, 10), Ok(vec![]));
    assert_eq!(coder.lower_bound(), 0x7fff_ffff_ffff_fffd);
    assert_eq!(coder.range(), 0x8000_0000_0000_0002);

    let mut coder = RangeCoder::new();
    assert_eq!(coder.param_update(1, 1, 2), Ok(vec![]));
    assert_eq!(coder.lower_bound(), 0x7fff_ffff_ffff_ffff);
    assert_eq!(coder.range(), 0x8000_0000_0000_0000);
}

#[test]
fn whole_alphabet_leaves_the_interval_alone() {
    let mut coder = RangeCoder::new();
    assert_eq!(coder.param_update(1, 0, 1), Ok(vec![]));
    assert_eq!(coder.lower_bound(), 0);
    assert_eq!(coder.range(), u64::MAX);
}

#[test]
fn fixed_top_bytes_are_emitted() {
    let mut coder = RangeCoder::new();
    assert_eq!(coder.param_update(1, 0, 1 << 31), Ok(vec![0, 0, 0]));
    assert_eq!(coder.lower_bound(), 0);
    assert_eq!(coder.range(), 0x01ff_ffff_ff00_0000);

    let mut coder = coder_at(0xab00_0000_0000_0000, 0x0000_ffff_ffff_ffff);
    assert_eq!(coder.param_update(1, 2, 4), Ok(vec![0xab, 0x00]));
    assert_eq!(coder.lower_bound(), 0x7fff_ffff_fffe_0000);
    assert_eq!(coder.range(), 0x3fff_ffff_ffff_0000);
}

#[test]
fn narrow_range_across_a_byte_boundary_is_widened() {
    let mut coder = coder_at(0x12ff_ffff_ffff_fff0, 0x20);
    assert_eq!(coder.param_update(1, 0, 1), Ok(vec![0x12, 0xff, 0xff, 0xff, 0xff, 0xff]));
    assert_eq!(coder.lower_bound(), 0xfff0_0000_0000_0000);
    assert_eq!(coder.range(), 0x000f_ffff_ffff_ff00);

    let mut coder = coder_at(0x12ff_ffff_ffff_fff0, 0x20);
    assert_eq!(
        coder.param_update(1, 0, 2),
        Ok(vec![0x12, 0xff, 0xff, 0xff, 0xff, 0xff, 0xff])
    );
    assert_eq!(coder.lower_bound(), 0xf000_0000_0000_0000);
    assert_eq!(coder.range(), 0x1000_0000_0000_0000);
}

#[test]
fn lossless_pass_runs_before_the_lossy_one() {
    let mut coder = coder_at(0xabff_ffff_0000_0000, 0x0000_0001_0000_0000);
    assert_eq!(coder.param_update(1, 3, 4), Ok(vec![0xab, 0xff, 0xff, 0xff]));
    assert_eq!(coder.lower_bound(), 0xc000_0000_0000_0000);
    assert_eq!(coder.range(), 0x4000_0000_0000_0000);
}

#[test]
fn lower_bound_overflow_is_reported() {
    let mut coder = coder_at(u64::MAX, u64::MAX);
    assert_eq!(
        coder.param_update(1, 1, 2),
        Err(RangeCoderError::LowerBoundOverflow {
            lower_bound: u64::MAX,
            add_val: 0x7fff_ffff_ffff_ffff,
            range: 0x8000_0000_0000_0000,
        })
    );
    assert_eq!(coder.lower_bound(), u64::MAX);
    assert_eq!(coder.range(), 0x8000_0000_0000_0000);
}

#[test]
fn upper_bound_overflow_is_reported() {
    let mut coder = coder_at(u64::MAX, 2);
    assert_eq!(
        coder.upper_bound(),
        Err(RangeCoderError::UpperBoundOverflow { lower_bound: u64::MAX, range: 2 })
    );
    assert_eq!(
        coder.param_update(1, 0, 1),
        Err(RangeCoderError::UpperBoundOverflow { lower_bound: u64::MAX, range: 2 })
    );
    assert_eq!(
        coder_at(u64::MAX, 1).upper_bound(),
        Err(RangeCoderError::UpperBoundOverflow { lower_bound: u64::MAX, range: 1 })
    );
    assert_eq!(coder_at(u64::MAX - 1, 1).upper_bound(), Ok(u64::MAX));
    assert_eq!(coder_at(7, 3).upper_bound(), Ok(10));
}

#[test]
fn upper_bound_leaves_the_coder_alone() {
    let coder = coder_at(0x1234, 0x5678);
    assert_eq!(coder.upper_bound(), Ok(0x68ac));
    assert_eq!((coder.lower_bound(), coder.range()), (0x1234, 0x5678));
    let coder = coder_at(u64::MAX, u64::MAX);
    assert!(coder.upper_bound().is_err());
    assert_eq!((coder.lower_bound(), coder.range()), (u64::MAX, u64::MAX));
}

#[test]
fn frequencies_outside_a_model_overflow_the_lower_bound() {
    let mut coder = RangeCoder::new();
    assert_eq!(coder.param_update(1, 1, 2), Ok(vec![]));
    assert_eq!(coder.lower_bound(), 0x7fff_ffff_ffff_ffff);
    assert_eq!(
        coder.param_update(1, 3, 2),
        Err(RangeCoderError::LowerBoundOverflow {
            lower_bound: 0x7fff_ffff_ffff_ffff,
            add_val: 0xc000_0000_0000_0000,
            range: 0x4000_0000_0000_0000,
        })
    );
    assert_eq!(coder.lower_bound(), 0x7fff_ffff_ffff_ffff);
    assert_eq!(coder.range(), 0x4000_0000_0000_0000);
}

#[test]
fn frequencies_outside_a_model_overflow_the_upper_edge() {
    let mut coder = coder_at(0x8000_0000_0000_0000, 0x8000_0000_0000_0000);
    assert_eq!(
        coder.param_update(3, 0, 2),
        Err(RangeCoderError::UpperBoundOverflow {
            lower_bound: 0x8000_0000_0000_0000,
            range: 0xc000_0000_0000_0000,
        })
    );
}

#[test]
fn empty_range_is_reported() {
    let mut coder = RangeCoder::new();
    assert_eq!(
        coder.param_update(0, 0, 1),
        Err(RangeCoderError::UpperBoundOverflow { lower_bound: 0, range: 0 })
    );
    assert_eq!(coder_at(5, 0).upper_bound(), Ok(5));
    assert_eq!(
        coder_at(5, 0).param_update(1, 0, 1),
        Err(RangeCoderError::UpperBoundOverflow { lower_bound: 5, range: 0 })
    );
}

#[test]
fn total_beyond_the_range_is_reported() {
    let mut coder = coder_at(0x1234, 9);
    assert_eq!(
        coder.param_update(3, 2, 10),
        Err(RangeCoderError::UpperBoundOverflow { lower_bound: 0x1234, range: 0 })
    );
    assert_eq!(coder.lower_bound(), 0x1234);
    assert_eq!(coder.range(), 0);
}

#[test]
fn interval_that_fills_a_top_byte_cell_cannot_be_shifted() {
    let mut coder = coder_at(0x1200_0000_0000_0000, 0x0100_0000_0000_0000);
    assert_eq!(
        coder.param_update(1, 0, 1),
        Err(RangeCoderError::UpperBoundOverflow { lower_bound: 0, range: 0 })
    );
}

#[test]
fn shift_emits_the_top_byte() {
    let mut coder = coder_at(0x1234_5678_9abc_def0, 0x0011_2233_4455_6677);
    assert_eq!(coder.left_shift(), 0x12);
    assert_eq!(coder.lower_bound(), 0x3456_789a_bcde_f000);
    assert_eq!(coder.range(), 0x1122_3344_5566_7700);
}

#[test]
fn finish_flushes_the_lower_bound() {
    let mut coder = coder_at(0x1234_5678_9abc_def0, 0x0011_2233_4455_6677);
    assert_eq!(coder.finish(), [0x12, 0x34, 0x56, 0x78, 0x9a, 0xbc, 0xde, 0xf0]);
    assert_eq!(coder.lower_bound(), 0);
    assert_eq!(coder.range(), 0);
    let mut fresh = RangeCoder::new();
    assert_eq!(fresh.finish(), [0; 8]);
}
