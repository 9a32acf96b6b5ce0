use maze_state::generator::Generator;
use rand::Rng;
use rand_mt::Mt19937GenRand32;

#[test]
fn default_seed_gives_the_known_stream() {
    let mut generator = Generator::new(5489);
    let known: [u32; 10] = [
        3499211612, 581869302, 3890346734, 3586334585, 545404204, 4161255391, 3922919429,
        949333985, 2715962298, 1323567403,
    ];
    for want in known {
        assert_eq!(generator.next_u32(), want);
    }
}

#[test]
fn first_output_is_not_the_seed() {
    for seed in [0u32, 1, 5489, 121321, u32::MAX] {
        let mut generator = Generator::new(seed);
        assert_ne!(generator.next_u32(), seed);
    }
}

#[test]
fn one_seed_gives_one_stream() {
    let mut first = Generator::new(121321);
    let mut second = Generator::new(121321);
    for _ in 0..1000 {
        assert_eq!(first.next_u32(), second.next_u32());
    }
}

#[test]
fn seeds_give_different_streams() {
    let mut first = Generator::new(0);
    let mut second = Generator::new(1);
    let a: Vec<u32> = (0..8).map(|_| first.next_u32()).collect();
    let b: Vec<u32> = (0..8).map(|_| second.next_u32()).collect();
    assert_ne!(a, b);
}

#[test]
fn generators_do_not_share_state() {
    let mut alone = Generator::new(7);
    let want: Vec<u32> = (0..20).map(|_| alone.next_u32()).collect();
    let mut watched = Generator::new(7);
    let mut other = Generator::new(99);
    for expected in want {
        other.next_u32();
        other.next_u32();
        assert_eq!(watched.next_u32(), expected);
    }
}

#[test]
fn stream_is_that_of_the_mersenne_twister() {
    for seed in [0u32, 1, 42, 5489, 121321, 0x1234_5678, u32::MAX] {
        let mut generator = Generator::new(seed);
        let mut twister = Mt19937GenRand32::new(seed);
        // more than one refill of the twister's 624 words
        for _ in 0..2000 {
            assert_eq!(generator.next_u32(), twister.gen::<u32>());
        }
    }
}
