use morningstar::{Bits, BitsError, IP, IP_INVERSE};

#[test]
fn ip_sanity() {
    for (i, j) in IP.iter().enumerate() {
        assert_eq!(IP_INVERSE[(64 - j) as usize], 64 - i as u8);
    }
}

#[test]
fn ip_tranform() {
    let mut input = Bits::<64>::new(0);
    // Set bit 26 to 1, which should be the 5th bit after the transform.
    input.set(26, true);

    let output = input.permute(&IP);
    println!("{:?}", input);
    println!("{:?}", output);

    // Check that only bit 26 is set
    assert_eq!(output.get(5), true);
    assert_eq!(output.as_u64().count_ones(), 1);

    // Check that applying the inverse works
    assert_eq!(output.permute(&IP_INVERSE), input);
}

#[test]
fn test_split_bits() {
    let bits: Bits<64> = Bits::new(0xdeadbeefcafebabe);
    let (deadbeef, cafebabe) = bits.split::<32, 32>();

    assert_eq!(deadbeef.as_u64(), 0xdeadbeef);
    assert_eq!(cafebabe.as_u64(), 0xcafebabe);

    let (dead, beef) = deadbeef.split::<16, 16>();
    let (cafe, babe) = cafebabe.split::<16, 16>();

    assert_eq!(dead.as_u64(), 0xdead);
    assert_eq!(beef.as_u64(), 0xbeef);
    assert_eq!(cafe.as_u64(), 0xcafe);
    assert_eq!(babe.as_u64(), 0xbabe);
}

#[test]
fn test_concat() {
    let tatoo: Bits<20> = Bits::new(0x7a700);
    let bae: Bits<12> = Bits::new(0xbae);

    let tatoo_bae = tatoo.concat::<12, 32>(bae);
    println!("{} bits: {:x}", tatoo_bae.len(), tatoo_bae.as_u64());

    assert_eq!(0x7a700bae, tatoo_bae.as_u64());
}

#[test]
fn test_get() {
    let one_one: Bits<1> = Bits::new(0b1);
    assert_eq!(one_one.get(1), true);

    let one_one: Bits<2> = Bits::new(0b01);
    assert_eq!(one_one.get(2), true);

    let one_one: Bits<8> = Bits::new(0b0000_1000);
    assert_eq!(one_one.get(5), true);
}

#[test]
fn test_set() {
    let mut one_one: Bits<8> = Bits::new(0b0000_0000);
    one_one.set(5, true);

    assert_eq!(one_one.as_u64(), 0b0000_1000);
}

#[test]
fn test_range() {
    let val: Bits<8> = Bits::new(0b0011_1100);

    assert_eq!(val.const_range::<3, 6, 4>().as_u64(), 0b1111);
    assert_eq!(val.const_range::<3, 6, 4>().len(), 4);

    assert_eq!(val.const_range::<1, 2, 2>().as_u64(), 0b00);
    assert_eq!(val.const_range::<1, 2, 2>().len(), 2);

    assert_eq!(val.const_range::<7, 8, 2>().as_u64(), 0b00);
    assert_eq!(val.const_range::<7, 8, 2>().len(), 2);
}

#[test]
fn test_rotate() {
    let val: Bits<8> = Bits::new(0b0011_1100);

    assert_eq!(val.rotate_left(2).as_u64(), 0b1111_0000);
    assert_eq!(val.rotate_left(4).as_u64(), 0b1100_0011);
}

#[test]
fn test_dot_product() {
    let val1: Bits<8> = Bits::new(0b0011_1100);
    let val2: Bits<8> = Bits::new(0b0010_1011);
    let val3: Bits<8> = Bits::new(0b0010_1100);

    assert_eq!(val1.dot_product(val2), false);
    assert_eq!(val2.dot_product(val1), false);

    assert_eq!(val1.dot_product(val3), true);
    assert_eq!(val3.dot_product(val1), true);

    assert_eq!(val2.dot_product(val3), false);
    assert_eq!(val3.dot_product(val2), false);
}

#[test]
fn construction_rejects_too_wide_value() {
    let too_big = Bits::<8>::try_new(0x700b19);
    assert_eq!(too_big, Err(BitsError::WidthViolation));
    let exact = Bits::<8>::try_new(0xff).unwrap();
    assert_eq!(exact.as_u64(), 0xff);
    assert_eq!(Bits::<8>::try_new(0x100), Err(BitsError::WidthViolation));
    assert_eq!(Bits::<64>::try_new(u64::MAX).unwrap().as_u64(), u64::MAX);
}

#[test]
fn range_at_runtime_positions() {
    let val: Bits<16> = Bits::new(0xabcd);
    assert_eq!(val.range::<8>(5, 12).as_u64(), 0xbc);
    assert_eq!(val.range::<4>(13, 16).as_u64(), 0xd);
}

#[test]
fn split_at_uneven_midpoint_and_back() {
    let val: Bits<12> = Bits::new(0b1011_0110_1101);
    let (hi, lo) = val.split::<5, 7>();
    assert_eq!(hi.as_u64(), 0b10110);
    assert_eq!(lo.as_u64(), 0b1101101);
    assert_eq!(hi.concat::<7, 12>(lo), val);
}

#[test]
fn rotate_full_turn_and_composition() {
    let val: Bits<28> = Bits::new(0x9abcdef);
    assert_eq!(val.rotate_left(28), val);
    assert_eq!(val.rotate_left(0), val);
    assert_eq!(val.rotate_left(3).rotate_left(27), val.rotate_left(2));
    assert_eq!(val.rotate_left(1).as_u64(), 0x3579bdf);
    let top: Bits<64> = Bits::new(0x8000_0000_0000_0001);
    assert_eq!(top.rotate_left(1).as_u64(), 0x3);
}

#[test]
fn xor_and_set_clear() {
    let a: Bits<8> = Bits::new(0b1100_1010);
    let b: Bits<8> = Bits::new(0b1010_0110);
    assert_eq!(a.xor(b).as_u64(), 0b0110_1100);
    let mut c = a;
    c.set(1, false);
    assert_eq!(c.as_u64(), 0b0100_1010);
    assert_eq!(c.get(1), false);
}

#[test]
fn permute_repeats_source_bits() {
    let permutation = [1u8, 1, 1, 1, 2, 3, 4];
    let input: Bits<4> = Bits::new(0b1001);
    let output = input.permute(&permutation);
    assert_eq!(output.len(), 7);
    assert_eq!(output.as_u64(), 0b1111001);
}

#[test]
fn ip_round_trip_both_ways() {
    for v in [0u64, 1, 0x0123456789abcdef, u64::MAX, 0xdeadbeefcafebabe] {
        let x: Bits<64> = Bits::new(v);
        assert_eq!(x.permute(&IP).permute(&IP_INVERSE), x);
        assert_eq!(x.permute(&IP_INVERSE).permute(&IP), x);
    }
}

#[test]
fn dot_product_symmetric_on_wide_values() {
    let a: Bits<64> = Bits::new(0xf0f0_1234_5678_9abc);
    let b: Bits<64> = Bits::new(0x0ff0_ffff_0000_1111);
    assert_eq!(a.dot_product(b), b.dot_product(a));
    assert_eq!(a.dot_product(Bits::new(0)), false);
    assert_eq!(Bits::<64>::new(1).dot_product(Bits::new(1)), true);
}
