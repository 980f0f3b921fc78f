use pcg_rand::generator::{FillBytes, Generator};
use pcg_rand::seeds::PcgSeeder;
use pcg_rand::Pcg32Unique;
use rand::{distributions::Alphanumeric, thread_rng, Rng, RngCore};

const NUM_TESTS: usize = 1000;

/// Hands a generator of the library to `rand`, draw for draw.
struct AsRng<G: Generator>(G);

impl<G: Generator> RngCore for AsRng<G> {
    fn next_u32(&mut self) -> u32 {
        self.0.next_u32()
    }

    fn next_u64(&mut self) -> u64 {
        self.0.next_u64()
    }

    fn fill_bytes(&mut self, dest: &mut [u8]) {
        self.0.fill_bytes(dest)
    }

    fn try_fill_bytes(&mut self, dest: &mut [u8]) -> Result<(), rand::Error> {
        self.0.try_fill_bytes(dest)
    }
}

fn sample<G: Generator>(rng: G) -> Vec<u8> {
    AsRng(rng).sample_iter(&Alphanumeric).take(100).collect::<Vec<_>>()
}

#[test]
#[should_panic]
fn pcg32_unique_unseeded() {
    let ra: Pcg32Unique = Pcg32Unique::new_unseeded();
    let rb: Pcg32Unique = Pcg32Unique::new_unseeded();
    //Two streams that were given no identity are the same stream
    assert!(sample(ra) != sample(rb));
}

#[test]
#[should_panic]
fn pcg32_unique_seed_match() {
    for _ in 0..NUM_TESTS {
        let s = PcgSeeder::seed(thread_rng().gen());
        let ra: Pcg32Unique = Pcg32Unique::from_seed(s.clone());
        let rb: Pcg32Unique = Pcg32Unique::from_seed(s);
        //Two streams that were given no identity are the same stream
        assert!(sample(ra) != sample(rb));
    }
}

#[test]
fn pcg32_unique_seed_diff() {
    for _ in 0..NUM_TESTS {
        //Test a bad case same seed with just slightly different
        //seeds
        let seed: u64 = thread_rng().gen();
        let s1 = PcgSeeder::seed(seed);
        let s2 = PcgSeeder::seed(seed.wrapping_add(1));
        let ra: Pcg32Unique = Pcg32Unique::from_seed(s1);
        let rb: Pcg32Unique = Pcg32Unique::from_seed(s2);
        assert!(sample(ra) != sample(rb));
    }
}
