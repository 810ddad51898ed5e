use range_coder::uext::UEXT;

#[test]
fn testuext() {
    let a: usize = 0x010fa5;
    println!("{:x}", a);
    let v = a.to_vec_u8();
    for i in &v {
        println!("{:x}", i);
    }
    let b: usize = UEXT::from_vec_u8(&v);
    assert_eq!(a, b);
}

#[test]
fn u32_is_written_highest_byte_first() {
    let v = 0x0102_a5ffu32.to_vec_u8();
    assert_eq!(v, vec![0x01, 0x02, 0xa5, 0xff]);
    assert_eq!(0u32.to_vec_u8(), vec![0, 0, 0, 0]);
    assert_eq!(u32::MAX.to_vec_u8(), vec![0xff, 0xff, 0xff, 0xff]);
}

#[test]
fn u64_is_written_highest_byte_first() {
    let v = 0x1234_5678_9abc_def0u64.to_vec_u8();
    assert_eq!(v, vec![0x12, 0x34, 0x56, 0x78, 0x9a, 0xbc, 0xde, 0xf0]);
}

#[test]
fn usize_has_as_many_bytes_as_the_type() {
    let v = 0x010fa5usize.to_vec_u8();
    assert_eq!(v.len(), std::mem::size_of::<usize>());
    assert_eq!(&v[v.len() - 3..], &[0x01, 0x0f, 0xa5]);
    assert!(v[..v.len() - 3].iter().all(|b| *b == 0));
}

#[test]
fn short_input_is_read_as_a_short_number() {
    let a: u32 = UEXT::from_vec_u8(&[0x01, 0x02]);
    assert_eq!(a, 0x0102);
    let b: u64 = UEXT::from_vec_u8(&[]);
    assert_eq!(b, 0);
    let c: u64 = UEXT::from_vec_u8(&[0xff, 0, 0, 0, 0, 0, 0, 1]);
    assert_eq!(c, 0xff00_0000_0000_0001);
}

#[test]
fn reading_back_gives_the_number_written() {
    for x in [0u64, 1, 255, 256, 0xdead_beef, u64::MAX - 1, u64::MAX] {
        let y: u64 = UEXT::from_vec_u8(&x.to_vec_u8());
        assert_eq!(x, y);
    }
    for x in [0u32, 1, 0x8000_0000, u32::MAX] {
        let y: u32 = UEXT::from_vec_u8(&x.to_vec_u8());
        assert_eq!(x, y);
    }
}
