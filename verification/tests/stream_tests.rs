use pcg_rand::generator::Generator;
use pcg_rand::multiplier::DefaultMultiplier;
use pcg_rand::outputmix::XshRrMixin;
use pcg_rand::seeds::PcgSeeder;
use pcg_rand::stream::{NoSeqStream, OneSeqStream, SpecificSeqStream, Stream, UniqueSeqStream};
use pcg_rand::{Pcg32Unique, PcgEngine};

#[test]
fn the_one_sequence() {
    let stream: OneSeqStream = <OneSeqStream as Stream<u32>>::build(None);
    assert_eq!(Stream::<u32>::increment(&stream), 2_891_336_453u32);
    assert_eq!(Stream::<u32>::get_stream(&stream), 2_891_336_453u32);
    assert_eq!(Stream::<u64>::increment(&stream), 1_442_695_040_888_963_407u64);
    assert_eq!(Stream::<u64>::get_stream(&stream), 1_442_695_040_888_963_407u64);
    assert_eq!(
        Stream::<u128>::increment(&stream),
        117_397_592_171_526_113_268_558_934_119_004_209_487u128
    );
    assert_eq!(
        Stream::<u128>::get_stream(&stream),
        117_397_592_171_526_113_268_558_934_119_004_209_487u128
    );
}

#[test]
fn the_one_sequence_reads_nothing_from_a_seed() {
    let mut seed = PcgSeeder::seed_with_stream(5u64, 6u64);
    let stream: OneSeqStream = <OneSeqStream as Stream<u64>>::build(Some(&mut seed));
    assert_eq!(Stream::<u64>::increment(&stream), 1_442_695_040_888_963_407u64);
    assert_eq!(seed.get(), 5u64);
}

#[test]
fn no_sequence() {
    let mut seed = PcgSeeder::seed_with_stream(5u64, 6u64);
    let stream: NoSeqStream = <NoSeqStream as Stream<u64>>::build(Some(&mut seed));
    assert_eq!(Stream::<u32>::increment(&stream), 0u32);
    assert_eq!(Stream::<u64>::increment(&stream), 0u64);
    assert_eq!(Stream::<u128>::increment(&stream), 0u128);
    assert_eq!(Stream::<u64>::get_stream(&stream), 0u64);
    assert_eq!(seed.get(), 5u64);
}

#[test]
fn a_specific_sequence_without_a_seed_is_the_one_sequence() {
    let stream: SpecificSeqStream<u32> = Stream::build(None);
    assert_eq!(stream.increment(), 2_891_336_453u32);
    let stream: SpecificSeqStream<u64> = Stream::build(None);
    assert_eq!(stream.increment(), 1_442_695_040_888_963_407u64);
    let stream: SpecificSeqStream<u128> = Stream::build(None);
    assert_eq!(stream.increment(), 117_397_592_171_526_113_268_558_934_119_004_209_487u128);
}

#[test]
fn a_specific_sequence_reads_the_next_word_of_the_seed_and_makes_it_odd() {
    let mut seed = PcgSeeder::seed_with_stream(12u64, 14u64);
    let stream: SpecificSeqStream<u64> = Stream::build(Some(&mut seed));
    assert_eq!(stream.increment(), 13u64);
    let stream: SpecificSeqStream<u64> = Stream::build(Some(&mut seed));
    assert_eq!(stream.increment(), 15u64);
    assert_eq!(stream.get_stream(), 15u64);
    assert!(!seed.can_read(1));

    let mut seed = PcgSeeder::seed_with_stream(7u32, 0u32);
    let stream: SpecificSeqStream<u32> = Stream::build(Some(&mut seed));
    assert_eq!(stream.increment(), 7u32);
    let stream: SpecificSeqStream<u32> = Stream::build(Some(&mut seed));
    assert_eq!(stream.increment(), 1u32);

    let mut seed = PcgSeeder::seed(u128::MAX - 1);
    let stream: SpecificSeqStream<u128> = Stream::build(Some(&mut seed));
    assert_eq!(stream.increment(), u128::MAX);
}

#[test]
fn setting_a_stream_makes_it_odd() {
    let mut stream: SpecificSeqStream<u64> = Stream::build(None);
    stream.set_stream(12);
    assert_eq!(stream.increment(), 13u64);
    stream.set_stream(13);
    assert_eq!(stream.increment(), 13u64);
    stream.set_stream(0);
    assert_eq!(stream.get_stream(), 1u64);
    stream.set_stream(u64::MAX);
    assert_eq!(stream.get_stream(), u64::MAX);
    let mut stream: SpecificSeqStream<u32> = Stream::build(None);
    stream.set_stream(100);
    assert_eq!(stream.increment(), 101u32);
    let mut stream: SpecificSeqStream<u128> = Stream::build(None);
    stream.set_stream(1 << 100);
    assert_eq!(stream.increment(), (1u128 << 100) | 1);
}

#[test]
fn a_stream_from_an_increment_that_it_cannot_step_by_is_refused() {
    assert!(<OneSeqStream as Stream<u64>>::from_increment(1_442_695_040_888_963_407).is_some());
    assert!(<OneSeqStream as Stream<u64>>::from_increment(1_442_695_040_888_963_409).is_none());
    assert!(<OneSeqStream as Stream<u32>>::from_increment(2_891_336_453).is_some());
    assert!(<OneSeqStream as Stream<u32>>::from_increment(0).is_none());
    assert!(<OneSeqStream as Stream<u128>>::from_increment(1).is_none());
    assert!(<NoSeqStream as Stream<u64>>::from_increment(0).is_some());
    assert!(<NoSeqStream as Stream<u64>>::from_increment(1).is_none());
    assert!(<NoSeqStream as Stream<u32>>::from_increment(2).is_none());
    assert!(<NoSeqStream as Stream<u128>>::from_increment(0).is_some());
    assert!(<UniqueSeqStream as Stream<u64>>::from_increment(6).is_none());
    assert_eq!(<UniqueSeqStream as Stream<u64>>::from_increment(7).unwrap().identity(), 7);
    assert!(<UniqueSeqStream as Stream<u128>>::from_increment(u128::MAX).is_none());
    assert_eq!(
        <UniqueSeqStream as Stream<u128>>::from_increment(usize::MAX as u128).unwrap().identity(),
        usize::MAX
    );
}

#[test]
fn a_stream_from_an_increment_must_be_odd() {
    assert!(SpecificSeqStream::<u64>::from_increment(12).is_none());
    assert!(SpecificSeqStream::<u64>::from_increment(0).is_none());
    assert_eq!(SpecificSeqStream::<u64>::from_increment(13).unwrap().increment(), 13u64);
    assert!(SpecificSeqStream::<u32>::from_increment(2).is_none());
    assert_eq!(SpecificSeqStream::<u32>::from_increment(3).unwrap().increment(), 3u32);
    assert!(SpecificSeqStream::<u128>::from_increment(1 << 90).is_none());
    assert_eq!(SpecificSeqStream::<u128>::from_increment(u128::MAX).unwrap().increment(), u128::MAX);
}

#[test]
fn a_unique_stream_steps_by_its_identity_made_odd() {
    let stream = UniqueSeqStream::with_identity(6);
    assert_eq!(stream.identity(), 6);
    assert_eq!(Stream::<u64>::increment(&stream), 7u64);
    assert_eq!(Stream::<u64>::get_stream(&stream), 7u64);
    assert_eq!(Stream::<u128>::increment(&stream), 7u128);
    let stream = UniqueSeqStream::with_identity(7);
    assert_eq!(Stream::<u64>::increment(&stream), 7u64);
    let stream = UniqueSeqStream::with_identity(usize::MAX);
    assert_eq!(Stream::<u64>::increment(&stream), usize::MAX as u64);
    assert_eq!(Stream::<u128>::get_stream(&stream), usize::MAX as u128);
    let stream = UniqueSeqStream::with_identity(usize::MAX - 1);
    assert_eq!(Stream::<u128>::increment(&stream), usize::MAX as u128);
}

#[test]
fn streams_of_different_indices_step_differently() {
    let first = UniqueSeqStream::with_index(0);
    let second = UniqueSeqStream::with_index(1);
    let third = UniqueSeqStream::with_index(2);
    assert_eq!(first.identity(), 0);
    assert_eq!(second.identity(), 2);
    assert_eq!(third.identity(), 4);
    assert_eq!(Stream::<u64>::increment(&first), 1u64);
    assert_eq!(Stream::<u64>::increment(&second), 3u64);
    assert_eq!(Stream::<u64>::increment(&third), 5u64);
    let last = UniqueSeqStream::with_index(usize::MAX / 2);
    assert_eq!(last.identity(), usize::MAX - 1);
    assert_eq!(Stream::<u128>::increment(&last), usize::MAX as u128);
}

#[test]
fn a_unique_stream_without_an_identity_has_the_identity_zero() {
    let mut seed = PcgSeeder::seed_with_stream(5u64, 6u64);
    let stream: UniqueSeqStream = <UniqueSeqStream as Stream<u64>>::build(Some(&mut seed));
    assert_eq!(stream.identity(), 0);
    assert_eq!(Stream::<u64>::increment(&stream), 1u64);
    assert_eq!(seed.get(), 5u64);
    let stream: UniqueSeqStream = <UniqueSeqStream as Stream<u128>>::build(None);
    assert_eq!(Stream::<u128>::increment(&stream), 1u128);
}

#[test]
fn generators_with_different_identities_diverge() {
    let state: u64 = 0x1801_3CAD_3A48_3F72;
    let mut ra: Pcg32Unique = PcgEngine::from_parts(state, UniqueSeqStream::with_identity(6));
    let mut rb: Pcg32Unique = PcgEngine::from_parts(state, UniqueSeqStream::with_identity(0));
    let da: Vec<u32> = (0..3).map(|_| ra.next_u32()).collect();
    let db: Vec<u32> = (0..3).map(|_| rb.next_u32()).collect();
    assert_eq!(da, vec![3221547701, 3623489812, 3076582264]);
    assert_eq!(db, vec![3221547701, 3623489812, 1829288316]);
    let mut rc = Pcg32Unique::new_unseeded();
    let dc: Vec<u32> = (0..3).map(|_| rc.next_u32()).collect();
    assert_eq!(dc, db);
}

#[test]
fn a_generator_from_parts() {
    let stream: SpecificSeqStream<u64> = SpecificSeqStream::<u64>::from_increment(109).unwrap();
    let mut rng: PcgEngine<u64, u32, SpecificSeqStream<u64>, DefaultMultiplier, XshRrMixin> =
        PcgEngine::from_parts(1753877967969059832, stream);
    assert_eq!(rng.next_u32(), 0xa15c02b7);
    assert_eq!(rng.next_u32(), 0x7b47f409);
}
