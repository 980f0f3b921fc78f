use pcg_rand::generator::{FillBytes, Generator};
use pcg_rand::seeds::PcgSeeder;
use pcg_rand::Pcg64;
use rand::{distributions::Alphanumeric, thread_rng, Rng, RngCore};

const NUM_TESTS: usize = 1000;

/// Hands a generator of the library to `rand`, draw for draw.
struct AsRng<G: Generator>(G);

impl<G: Generator> RngCore for AsRng<G> {
    fn next_u32(&mut self) -> u32 {
        self.0.next_u32()
    }

    fn next_u64(&mut self) -> u64 {
        self.0.next_u64()
    }

    fn fill_bytes(&mut self, dest: &mut [u8]) {
        self.0.fill_bytes(dest)
    }

    fn try_fill_bytes(&mut self, dest: &mut [u8]) -> Result<(), rand::Error> {
        self.0.try_fill_bytes(dest)
    }
}

fn sample<G: Generator>(rng: G) -> Vec<u8> {
    AsRng(rng).sample_iter(&Alphanumeric).take(100).collect::<Vec<_>>()
}

#[test]
fn pcg64_unseeded() {
    let ra: Pcg64 = Pcg64::new_unseeded();
    let rb: Pcg64 = Pcg64::new_unseeded();
    assert_eq!(sample(ra), sample(rb));
}

#[test]
fn pcg64_seed_match() {
    for _ in 0..NUM_TESTS {
        let seed: u64 = thread_rng().gen();
        let seq: u64 = thread_rng().gen();
        let s = PcgSeeder::seed_with_stream(seed as u128, seq as u128);
        let ra: Pcg64 = Pcg64::from_seed(s.clone());
        let rb: Pcg64 = Pcg64::from_seed(s);
        assert_eq!(sample(ra), sample(rb));
    }
}

#[test]
fn pcg64_seq_diff() {
    for _ in 0..NUM_TESTS {
        //Test a bad case same seed with just slightly different
        //sequences. Because sequences have to be odd only sequences that are 2 apart
        //are for sure going to be different.
        let seed: u64 = thread_rng().gen();
        let seq: u64 = thread_rng().gen();
        let ra: Pcg64 = Pcg64::from_seed(PcgSeeder::seed_with_stream(seed as u128, seq as u128));
        let rb: Pcg64 =
            Pcg64::from_seed(PcgSeeder::seed_with_stream(seed as u128, (seq.wrapping_add(2)) as u128));
        assert!(sample(ra) != sample(rb));
    }
}

#[test]
fn pcg64_seed_diff() {
    for _ in 0..NUM_TESTS {
        //Test a bad case same seed with just slightly different
        //seeds
        let seed: u64 = thread_rng().gen();
        let seq: u64 = thread_rng().gen();
        let ra: Pcg64 = Pcg64::from_seed(PcgSeeder::seed_with_stream(seed as u128, seq as u128));
        let rb: Pcg64 =
            Pcg64::from_seed(PcgSeeder::seed_with_stream((seed.wrapping_add(1)) as u128, seq as u128));
        assert!(sample(ra) != sample(rb));
    }
}
