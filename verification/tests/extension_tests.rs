use pcg_rand::extension::{
    Ext1024, Ext128, Ext16, Ext2, Ext256, Ext32, Ext4, Ext512, Ext64, Ext8, ExtPcg, ExtSize,
    Pcg32Ext, Pcg32LExt, Pcg64Ext,
};
use pcg_rand::generator::Generator;
use pcg_rand::seeds::PcgSeeder;
use pcg_rand::{Pcg32, Pcg64};

#[test]
fn extension_sizes() {
    assert_eq!((<Ext2 as ExtSize>::EXT_SIZE, <Ext2 as ExtSize>::EXT_BITS), (2, 1));
    assert_eq!((<Ext4 as ExtSize>::EXT_SIZE, <Ext4 as ExtSize>::EXT_BITS), (4, 2));
    assert_eq!((<Ext8 as ExtSize>::EXT_SIZE, <Ext8 as ExtSize>::EXT_BITS), (8, 3));
    assert_eq!((<Ext16 as ExtSize>::EXT_SIZE, <Ext16 as ExtSize>::EXT_BITS), (16, 4));
    assert_eq!((<Ext32 as ExtSize>::EXT_SIZE, <Ext32 as ExtSize>::EXT_BITS), (32, 5));
    assert_eq!((<Ext64 as ExtSize>::EXT_SIZE, <Ext64 as ExtSize>::EXT_BITS), (64, 6));
    assert_eq!((<Ext128 as ExtSize>::EXT_SIZE, <Ext128 as ExtSize>::EXT_BITS), (128, 7));
    assert_eq!((<Ext256 as ExtSize>::EXT_SIZE, <Ext256 as ExtSize>::EXT_BITS), (256, 8));
    assert_eq!((<Ext512 as ExtSize>::EXT_SIZE, <Ext512 as ExtSize>::EXT_BITS), (512, 9));
    assert_eq!((<Ext1024 as ExtSize>::EXT_SIZE, <Ext1024 as ExtSize>::EXT_BITS), (1024, 10));
}

#[test]
fn the_extension_is_drawn_from_the_generator() {
    let mut plain = Pcg32::new_unseeded();
    let drawn: Vec<u32> = (0..16).map(|_| plain.next_u32()).collect();
    let ext: Pcg32Ext<Ext16> = ExtPcg::from_pcg(Pcg32::new_unseeded());
    assert_eq!(ext.extension().to_vec(), drawn);
    assert_eq!(ext.extension()[0], 3221547701);

    let ext: Pcg32Ext<Ext1024> = Pcg32Ext::new_unseeded();
    assert_eq!(ext.extension().len(), 1024);
    let ext: Pcg32Ext<Ext2> = Pcg32Ext::new_unseeded();
    assert_eq!(ext.extension().to_vec(), vec![3221547701, 594639544]);
}

#[test]
fn known_draws_of_extended_generators() {
    let mut rng: Pcg32Ext<Ext2> = Pcg32Ext::new_unseeded();
    let drawn: Vec<u32> = (0..5).map(|_| rng.next_u32()).collect();
    assert_eq!(drawn, vec![3348466854, 3109054632, 1258312584, 2621175647, 2745680119]);

    let mut rng: Pcg32Ext<Ext16> = Pcg32Ext::new_unseeded();
    let drawn: Vec<u32> = (0..5).map(|_| rng.next_u32()).collect();
    assert_eq!(drawn, vec![4019425351, 2411288706, 1750077298, 503116472, 2585700739]);

    let mut rng: Pcg64Ext<Ext4> = Pcg64Ext::new_unseeded();
    let drawn: Vec<u64> = (0..5).map(|_| rng.next_u64()).collect();
    assert_eq!(
        drawn,
        vec![
            12939775777523190103,
            17273590638990100388,
            13897104376905109894,
            1240181410388233200,
            1842066542339688908
        ]
    );
}

#[test]
fn a_draw_mixes_the_value_that_the_new_state_picks_and_raises_it() {
    let mut plain = Pcg32::new_unseeded();
    let mut rng: Pcg32Ext<Ext16> = Pcg32Ext::new_unseeded();
    for _ in 0..16 {
        plain.next_u32();
    }
    for _ in 0..1000 {
        let before: Vec<u32> = rng.extension().to_vec();
        let raw = plain.next_u32();
        let pick = (plain.get_state().state & 15) as usize;
        let out = rng.next_u32();
        assert_eq!(out, raw ^ before[pick]);
        let after: Vec<u32> = rng.extension().to_vec();
        for i in 0..16 {
            if i == pick {
                assert_eq!(after[i], before[i].wrapping_add(1));
            } else {
                assert_eq!(after[i], before[i]);
            }
        }
    }
}

#[test]
fn every_value_of_the_extension_is_picked_equally_often() {
    let mut rng: Pcg32Ext<Ext32> = Pcg32Ext::new_unseeded();
    let before: Vec<u32> = rng.extension().to_vec();
    let rounds: u32 = 10000;
    for _ in 0..rounds * 32 {
        rng.next_u32();
    }
    let after: Vec<u32> = rng.extension().to_vec();
    for i in 0..32 {
        assert_eq!(after[i].wrapping_sub(before[i]), rounds, "value {}", i);
    }
}

#[test]
fn every_value_of_a_wide_extension_is_picked_equally_often() {
    let mut rng: Pcg64Ext<Ext8> = Pcg64Ext::from_seed(PcgSeeder::seed_with_stream(3u128, 4u128));
    let before: Vec<u64> = rng.extension().to_vec();
    let rounds: u64 = 1000;
    for _ in 0..rounds * 8 {
        rng.next_u64();
    }
    let after: Vec<u64> = rng.extension().to_vec();
    for i in 0..8 {
        assert_eq!(after[i].wrapping_sub(before[i]), rounds, "value {}", i);
    }
}

#[test]
fn every_value_grows_by_the_rounds_that_were_drawn() {
    let mut e: Pcg32Ext<Ext32> = Pcg32Ext::from_seed(PcgSeeder::seed_with_stream(11u64, 13u64));
    assert_eq!(e.extension().len(), 32);
    let before: Vec<u32> = e.extension().to_vec();
    for _ in 0..320000 {
        e.next_u32();
    }
    let after: Vec<u32> = e.extension().to_vec();
    for j in 0..32 {
        assert_eq!(after[j], before[j].wrapping_add(10000), "value {}", j);
    }
}

#[test]
fn the_first_draws_of_the_smallest_extension() {
    let seed = PcgSeeder::seed_with_stream(11u64, 13u64);
    let mut e: Pcg32Ext<Ext2> = Pcg32Ext::from_seed(seed.clone());
    let mut p = Pcg32::from_seed(seed);
    let plain: Vec<u32> = (0..5).map(|_| p.next_u32()).collect();
    assert_eq!(plain[0], 0);
    assert_eq!(plain[1], 0x54F1_3138);
    assert_eq!(e.extension().to_vec(), vec![plain[0], plain[1]]);
    // the states that the draws step to pick the values 0, 1 and 0
    assert_eq!(e.next_u32(), plain[2]);
    assert_eq!(e.next_u32(), plain[3] ^ plain[1]);
    assert_eq!(e.next_u32(), plain[4] ^ 1);
    assert_eq!(e.extension().to_vec(), vec![2, plain[1].wrapping_add(1)]);
}

#[test]
fn the_extension_has_the_size_that_its_type_names() {
    assert_eq!(Pcg32Ext::<Ext2>::new_unseeded().extension().len(), 2);
    assert_eq!(Pcg32Ext::<Ext4>::new_unseeded().extension().len(), 4);
    assert_eq!(Pcg32Ext::<Ext8>::new_unseeded().extension().len(), 8);
    assert_eq!(Pcg32Ext::<Ext64>::new_unseeded().extension().len(), 64);
    assert_eq!(Pcg32Ext::<Ext128>::new_unseeded().extension().len(), 128);
    assert_eq!(Pcg32Ext::<Ext256>::new_unseeded().extension().len(), 256);
    assert_eq!(Pcg32Ext::<Ext512>::new_unseeded().extension().len(), 512);
    assert_eq!(Pcg64Ext::<Ext1024>::new_unseeded().extension().len(), 1024);
    let mut e = Pcg32LExt::<Ext16>::new_unseeded();
    e.next_u32();
    assert_eq!(e.extension().len(), 16);
}

#[test]
fn extended_generators_from_the_same_seed_draw_alike() {
    let mut ra: Pcg32LExt<Ext64> = Pcg32LExt::from_seed(PcgSeeder::seed_with_stream(11, 12));
    let mut rb: Pcg32LExt<Ext64> = Pcg32LExt::from_seed(PcgSeeder::seed_with_stream(11, 12));
    let mut rc: Pcg32LExt<Ext64> = Pcg32LExt::from_seed(PcgSeeder::seed_with_stream(11, 14));
    let da: Vec<u32> = (0..100).map(|_| ra.next_u32()).collect();
    let db: Vec<u32> = (0..100).map(|_| rb.next_u32()).collect();
    let dc: Vec<u32> = (0..100).map(|_| rc.next_u32()).collect();
    assert_eq!(da, db);
    assert!(da != dc);
}

#[test]
fn wide_draws_of_extended_generators() {
    let mut ra: Pcg32Ext<Ext2> = Pcg32Ext::new_unseeded();
    assert_eq!(ra.next_u64(), (3109054632u64 << 32) | 3348466854u64);
    let mut rb: Pcg64Ext<Ext4> = Pcg64Ext::new_unseeded();
    assert_eq!(rb.next_u32(), 12939775777523190103u64 as u32);
    assert_eq!(rb.next_u64(), 17273590638990100388);
    let mut plain = Pcg64::new_unseeded();
    let first: Vec<u64> = (0..4).map(|_| plain.next_u64()).collect();
    let ext: Pcg64Ext<Ext4> = ExtPcg::from_pcg(Pcg64::new_unseeded());
    assert_eq!(ext.extension().to_vec(), first);
}
