use pcg_rand::numops::{low_mask, AsSmaller, AsUsize, BitSize, PcgOps};

#[test]
fn bit_sizes() {
    assert_eq!(<u8 as BitSize>::BITS, 8);
    assert_eq!(<u16 as BitSize>::BITS, 16);
    assert_eq!(<u32 as BitSize>::BITS, 32);
    assert_eq!(<u64 as BitSize>::BITS, 64);
    assert_eq!(<u128 as BitSize>::BITS, 128);
}

#[test]
fn zero_and_one() {
    assert_eq!(<u8 as PcgOps>::zero(), 0u8);
    assert_eq!(<u8 as PcgOps>::one(), 1u8);
    assert_eq!(<u64 as PcgOps>::zero(), 0u64);
    assert_eq!(<u64 as PcgOps>::one(), 1u64);
    assert_eq!(<u128 as PcgOps>::zero(), 0u128);
    assert_eq!(<u128 as PcgOps>::one(), 1u128);
}

#[test]
fn multiplication_wraps() {
    assert_eq!(PcgOps::wrap_mul(&141u8, 217u8), 133u8);
    assert_eq!(PcgOps::wrap_mul(&12829u16, 62169u16), 58517u16);
    assert_eq!(PcgOps::wrap_mul(&747796405u32, 2891336453u32), 2596035977u32);
    assert_eq!(PcgOps::wrap_mul(&u64::MAX, 3u64), 18446744073709551613u64);
    assert_eq!(
        PcgOps::wrap_mul(&6364136223846793005u64, 6364136223846793005u64),
        7520897724310334953u64
    );
    assert_eq!(
        PcgOps::wrap_mul(
            &47026247687942121848144207491837523525u128,
            47026247687942121848144207491837523525u128
        ),
        31553007098343073706681831786593431193u128
    );
}

#[test]
fn addition_wraps() {
    assert_eq!(PcgOps::wrap_add(&255u8, 1u8), 0u8);
    assert_eq!(PcgOps::wrap_add(&200u8, 100u8), 44u8);
    assert_eq!(PcgOps::wrap_add(&u16::MAX, 2u16), 1u16);
    assert_eq!(PcgOps::wrap_add(&u32::MAX, u32::MAX), u32::MAX - 1);
    assert_eq!(PcgOps::wrap_add(&u64::MAX, 1u64), 0u64);
    assert_eq!(PcgOps::wrap_add(&u128::MAX, 5u128), 4u128);
    assert_eq!(PcgOps::wrap_add(&1u64, 2u64), 3u64);
}

#[test]
fn bitwise_operations() {
    assert_eq!(PcgOps::xor(0b1100u8, 0b1010u8), 0b0110u8);
    assert_eq!(PcgOps::xor(0xFFFF_0000u32, 0x00FF_FF00u32), 0xFF00_FF00u32);
    assert_eq!(PcgOps::xor(u128::MAX, 1u128), u128::MAX - 1);
    assert_eq!(PcgOps::or(0b1100u8, 0b1010u8), 0b1110u8);
    assert_eq!(PcgOps::or(12u64, 1u64), 13u64);
    assert_eq!(PcgOps::or(13u64, 1u64), 13u64);
}

#[test]
fn shifts() {
    assert_eq!(PcgOps::shr(0x80u8, 7), 1u8);
    assert_eq!(PcgOps::shr(0xBEEFu16, 4), 0x0BEEu16);
    assert_eq!(PcgOps::shr(0xDEADBEEFu32, 16), 0xDEADu32);
    assert_eq!(PcgOps::shr(u64::MAX, 63), 1u64);
    assert_eq!(PcgOps::shr(u128::MAX, 127), 1u128);
    assert_eq!(PcgOps::shr(5u64, 0), 5u64);
    assert_eq!(PcgOps::shl(0x81u8, 1), 2u8);
    assert_eq!(PcgOps::shl(0xBEEFu16, 4), 0xEEF0u16);
    assert_eq!(PcgOps::shl(0xDEADBEEFu32, 16), 0xBEEF0000u32);
    assert_eq!(PcgOps::shl(u64::MAX, 63), 1u64 << 63);
    assert_eq!(PcgOps::shl(3u128, 127), 1u128 << 127);
    assert_eq!(PcgOps::shl(5u64, 0), 5u64);
}

#[test]
fn rotations() {
    assert_eq!(PcgOps::rotr(0x81u8, 1), 192u8);
    assert_eq!(PcgOps::rotr(0b10110010u8, 3), 86u8);
    assert_eq!(PcgOps::rotr(0x8001u16, 4), 6144u16);
    assert_eq!(PcgOps::rotr(0xDEADBEEFu32, 8), 4024348094u32);
    assert_eq!(PcgOps::rotr(0x0123456789ABCDEFu64, 12), 16064359886828903100u64);
    assert_eq!(
        PcgOps::rotr(0x0123456789ABCDEF0FEDCBA987654321u128, 20),
        111915092449718016058414091212607363190u128
    );
    assert_eq!(PcgOps::rotr(0xDEADBEEFu32, 0), 0xDEADBEEFu32);
    // whole turns change nothing
    assert_eq!(PcgOps::rotr(0xDEADBEEFu32, 32), 0xDEADBEEFu32);
    assert_eq!(PcgOps::rotr(0xDEADBEEFu32, 40), 4024348094u32);
    assert_eq!(PcgOps::rotr(0x81u8, 9), 192u8);
    assert_eq!(PcgOps::rotr(0x81u8, 8), 0x81u8);
    assert_eq!(PcgOps::rotr(0x8001u16, 20), 6144u16);
    assert_eq!(PcgOps::rotr(0x0123456789ABCDEFu64, 76), 16064359886828903100u64);
    assert_eq!(PcgOps::rotr(0x0123456789ABCDEFu64, u32::MAX), 0x0123456789ABCDEFu64.rotate_left(1));
    assert_eq!(
        PcgOps::rotr(0x0123456789ABCDEF0FEDCBA987654321u128, 148),
        111915092449718016058414091212607363190u128
    );
    assert_eq!(PcgOps::rotr(0xDEADBEEFu32, 31), 0xDEADBEEFu32.rotate_left(1));
}

#[test]
fn shrinking_keeps_the_low_bits() {
    let wide: u128 = 0x0123456789ABCDEF0FEDCBA987654321;
    assert_eq!(<u128 as AsSmaller<u64>>::shrink(wide), 0x0FEDCBA987654321u64);
    assert_eq!(<u128 as AsSmaller<u32>>::shrink(wide), 0x87654321u32);
    assert_eq!(<u128 as AsSmaller<u16>>::shrink(wide), 0x4321u16);
    assert_eq!(<u128 as AsSmaller<u8>>::shrink(wide), 0x21u8);
    assert_eq!(<u64 as AsSmaller<u32>>::shrink(0x0123456789ABCDEF), 0x89ABCDEFu32);
    assert_eq!(<u64 as AsSmaller<u16>>::shrink(0x0123456789ABCDEF), 0xCDEFu16);
    assert_eq!(<u64 as AsSmaller<u8>>::shrink(0x0123456789ABCDEF), 0xEFu8);
    assert_eq!(<u32 as AsSmaller<u16>>::shrink(0xDEADBEEF), 0xBEEFu16);
    assert_eq!(<u32 as AsSmaller<u8>>::shrink(0xDEADBEEF), 0xEFu8);
    assert_eq!(<u16 as AsSmaller<u8>>::shrink(0xBEEF), 0xEFu8);
}

#[test]
fn conversion_to_usize() {
    assert_eq!(AsUsize::as_usize(&200u8), 200usize);
    assert_eq!(AsUsize::as_usize(&60000u16), 60000usize);
    assert_eq!(AsUsize::as_usize(&0xDEADBEEFu32), 0xDEADBEEFusize);
    assert_eq!(AsUsize::as_usize(&0x0123456789ABCDEFu64), 0x0123456789ABCDEFu64 as usize);
    assert_eq!(
        AsUsize::as_usize(&0x0123456789ABCDEF0FEDCBA987654321u128),
        0x0FEDCBA987654321u64 as usize
    );
}

#[test]
fn low_masks() {
    assert_eq!(low_mask(0), 0);
    assert_eq!(low_mask(1), 1);
    assert_eq!(low_mask(5), 31);
    assert_eq!(low_mask(10), 1023);
    assert_eq!(low_mask(31), 0x7FFF_FFFF);
}
