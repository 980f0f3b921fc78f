use pcg_rand::seeds::{DefaultSeed, PcgSeeder, ReadByteOrder, SeedError};
use pcg_rand::{Pcg32, Pcg32Basic, Pcg32Oneseq, Pcg64};
use pcg_rand::generator::Generator;

#[test]
fn words_are_written_least_significant_byte_first() {
    let mut buf = [0xAAu8; 3];
    ReadByteOrder::write(&0x12u8, &mut buf);
    assert_eq!(buf, [0x12, 0xAA, 0xAA]);

    let mut buf = [0xAAu8; 4];
    ReadByteOrder::write(&0x0102u16, &mut buf);
    assert_eq!(buf, [0x02, 0x01, 0xAA, 0xAA]);

    let mut buf = [0xAAu8; 6];
    ReadByteOrder::write(&0x01020304u32, &mut buf);
    assert_eq!(buf, [0x04, 0x03, 0x02, 0x01, 0xAA, 0xAA]);

    let mut buf = [0xAAu8; 9];
    ReadByteOrder::write(&0x0102030405060708u64, &mut buf);
    assert_eq!(buf, [8, 7, 6, 5, 4, 3, 2, 1, 0xAA]);
}

#[test]
fn a_wide_word_is_written_as_two_halves_the_high_one_first() {
    let mut buf = [0xAAu8; 17];
    ReadByteOrder::write(&0x0102030405060708_1112131415161718u128, &mut buf);
    assert_eq!(
        buf,
        [8, 7, 6, 5, 4, 3, 2, 1, 0x18, 0x17, 0x16, 0x15, 0x14, 0x13, 0x12, 0x11, 0xAA]
    );
}

#[test]
fn words_are_read_as_they_are_written() {
    assert_eq!(<u8 as ReadByteOrder>::read(&[0x12, 0xFF]), 0x12u8);
    assert_eq!(<u16 as ReadByteOrder>::read(&[0x02, 0x01, 0xFF]), 0x0102u16);
    assert_eq!(<u32 as ReadByteOrder>::read(&[0x04, 0x03, 0x02, 0x01, 0xFF]), 0x01020304u32);
    assert_eq!(
        <u64 as ReadByteOrder>::read(&[8, 7, 6, 5, 4, 3, 2, 1, 0xFF]),
        0x0102030405060708u64
    );
    assert_eq!(
        <u128 as ReadByteOrder>::read(&[
            8, 7, 6, 5, 4, 3, 2, 1, 0x18, 0x17, 0x16, 0x15, 0x14, 0x13, 0x12, 0x11, 0xFF
        ]),
        0x0102030405060708_1112131415161718u128
    );
}

#[test]
fn a_seed_holds_the_state_and_then_the_stream() {
    let mut seed = PcgSeeder::seed_with_stream(0x0102030405060708u64, 0x1112131415161718u64);
    assert_eq!(
        AsMut::<[u8]>::as_mut(&mut seed).to_vec(),
        vec![8, 7, 6, 5, 4, 3, 2, 1, 0x18, 0x17, 0x16, 0x15, 0x14, 0x13, 0x12, 0x11]
    );
    assert!(seed.can_read(2));
    assert!(!seed.can_read(3));
    assert_eq!(seed.get(), 0x0102030405060708u64);
    assert!(seed.can_read(1));
    assert!(!seed.can_read(2));
    assert_eq!(seed.get(), 0x1112131415161718u64);
    assert!(seed.can_read(0));
    assert!(!seed.can_read(1));
}

#[test]
fn a_seed_without_a_stream_holds_the_stream_zero() {
    let mut seed = PcgSeeder::seed(0xBEEFu16);
    assert_eq!(AsMut::<[u8]>::as_mut(&mut seed).to_vec(), vec![0xEF, 0xBE, 0, 0]);
    assert_eq!(seed.get(), 0xBEEFu16);
    assert_eq!(seed.get(), 0u16);
}

#[test]
fn seeds_of_every_width() {
    let mut seed = PcgSeeder::seed_with_stream(0xE1u8, 0xB3u8);
    assert_eq!(AsMut::<[u8]>::as_mut(&mut seed).len(), 2);
    assert_eq!((seed.get(), seed.get()), (0xE1u8, 0xB3u8));
    let mut seed = PcgSeeder::seed_with_stream(0x308A_20A0u32, 0xD133_51F1u32);
    assert_eq!(AsMut::<[u8]>::as_mut(&mut seed).len(), 8);
    assert_eq!((seed.get(), seed.get()), (0x308A_20A0u32, 0xD133_51F1u32));
    let mut seed = PcgSeeder::seed_with_stream(u128::MAX - 5, 77u128);
    assert_eq!(AsMut::<[u8]>::as_mut(&mut seed).len(), 32);
    assert_eq!((seed.get(), seed.get()), (u128::MAX - 5, 77u128));
}

#[test]
fn the_default_seeds() {
    let mut seed: PcgSeeder<u8> = Default::default();
    assert_eq!((seed.get(), seed.get()), (0xE1u8, 0xB3u8));
    let mut seed: PcgSeeder<u16> = Default::default();
    assert_eq!((seed.get(), seed.get()), (0xAA19u16, 0x4FD8u16));
    let mut seed: PcgSeeder<u32> = Default::default();
    assert_eq!((seed.get(), seed.get()), (0x308A_20A0u32, 0xD133_51F1u32));
    let mut seed: PcgSeeder<u64> = Default::default();
    assert_eq!((seed.get(), seed.get()), (0x1801_3CAD_3A48_3F72u64, 0x51DB_FCDA_0D6B_21D4u64));
    let mut seed: PcgSeeder<u128> = Default::default();
    assert_eq!(
        (seed.get(), seed.get()),
        (
            0xECC1_C32B_E531_D51A_93DC_E189_F916_29F4u128,
            0xF1CB_2035_E14F_F74B_46EF_3505_C538_6547u128
        )
    );
    assert_eq!(<u64 as DefaultSeed>::default_state(), 0x1801_3CAD_3A48_3F72u64);
    assert_eq!(<u64 as DefaultSeed>::default_stream(), 0x51DB_FCDA_0D6B_21D4u64);
}

#[test]
fn a_seed_from_bytes_of_the_right_length() {
    let bytes: Vec<u8> = (1..=16).collect();
    let mut seed: PcgSeeder<u64> = PcgSeeder::from_bytes(&bytes).ok().unwrap();
    assert_eq!(seed.get(), 0x0807060504030201u64);
    assert_eq!(seed.get(), 0x100F0E0D0C0B0A09u64);
}

#[test]
fn a_seed_from_bytes_of_another_length_is_refused() {
    let bytes: Vec<u8> = (1..=16).collect();
    assert_eq!(PcgSeeder::<u64>::from_bytes(&bytes[..15]).err(), Some(SeedError::SizeMismatch));
    assert_eq!(PcgSeeder::<u64>::from_bytes(&bytes[..8]).err(), Some(SeedError::SizeMismatch));
    assert_eq!(PcgSeeder::<u64>::from_bytes(&[]).err(), Some(SeedError::SizeMismatch));
    assert_eq!(PcgSeeder::<u128>::from_bytes(&bytes).err(), Some(SeedError::SizeMismatch));
    assert_eq!(PcgSeeder::<u32>::from_bytes(&bytes).err(), Some(SeedError::SizeMismatch));
    assert!(PcgSeeder::<u32>::from_bytes(&bytes[..8]).is_ok());
    let long: Vec<u8> = (1..=17).collect();
    assert_eq!(PcgSeeder::<u64>::from_bytes(&long).err(), Some(SeedError::SizeMismatch));
}

#[test]
fn a_generator_from_the_bytes_of_a_seed() {
    let mut seed = PcgSeeder::seed_with_stream(11u64, 12u64);
    let bytes: Vec<u8> = AsMut::<[u8]>::as_mut(&mut seed).to_vec();
    let mut ra = Pcg32::from_seed_bytes(&bytes).ok().unwrap();
    let mut rb = Pcg32::from_seed(seed);
    for _ in 0..100 {
        assert_eq!(ra.next_u32(), rb.next_u32());
    }
    assert!(matches!(Pcg32::from_seed_bytes(&bytes[..15]), Err(SeedError::SizeMismatch)));
    assert!(matches!(Pcg32::from_seed_bytes(&bytes[..8]), Err(SeedError::SizeMismatch)));
    assert!(matches!(Pcg64::from_seed_bytes(&bytes), Err(SeedError::SizeMismatch)));
    assert!(matches!(Pcg32Oneseq::from_seed_bytes(&bytes[..8]), Err(SeedError::SizeMismatch)));
    assert!(Pcg32Oneseq::from_seed_bytes(&bytes).is_ok());
}

#[test]
fn a_seed_filled_by_its_owner() {
    let mut seed: PcgSeeder<u64> = Default::default();
    for (i, byte) in AsMut::<[u8]>::as_mut(&mut seed).iter_mut().enumerate() {
        *byte = i as u8;
    }
    let mut copy = seed.clone();
    assert_eq!(copy.get(), 0x0706050403020100u64);
    assert_eq!(copy.get(), 0x0F0E0D0C0B0A0908u64);
    let mut ra = Pcg32Basic::from_seed(seed);
    let mut rb = Pcg32Basic::from_seed(PcgSeeder::seed_with_stream(
        0x0706050403020100u64,
        0x0F0E0D0C0B0A0908u64,
    ));
    assert_eq!(ra.next_u32(), rb.next_u32());
    assert_eq!(ra.next_u32(), rb.next_u32());
}

#[test]
fn a_copy_of_a_seed_is_read_from_where_the_seed_stands() {
    let mut seed = PcgSeeder::seed_with_stream(5u32, 6u32);
    assert_eq!(seed.get(), 5u32);
    let mut copy = seed.clone();
    assert_eq!(copy.get(), 6u32);
    assert_eq!(seed.get(), 6u32);
}
