//! The pseudo-random generator.

use psx_sdk::fx::rng::LcgRng;

#[test]
fn same_seed_same_sequence() {
    let mut a = LcgRng::new(0xC0DE_F00D);
    let mut b = LcgRng::new(0xC0DE_F00D);
    for _ in 0..100 {
        assert_eq!(a.next(), b.next());
    }
}

#[test]
fn signed_stays_in_range() {
    let mut rng = LcgRng::new(0xBEEF_0042);
    for _ in 0..10_000 {
        let v = rng.signed(40);
        assert!((-42..=40).contains(&v), "out of range: {v}");
    }
}

#[test]
fn signed_zero_range_is_zero() {
    let mut rng = LcgRng::new(1);
    for _ in 0..100 {
        assert_eq!(rng.signed(0), 0);
    }
}

#[test]
fn draws_have_their_values() {
    let mut rng = LcgRng::new(1);
    assert_eq!(rng.next(), 1_103_527_590);
    assert_eq!(rng.state(), 1_103_527_590);
    let mut rng = LcgRng::new(1);
    assert_eq!(rng.next_mixed(), 1_103_527_590 ^ (1_103_527_590 >> 16));
    let mut rng = LcgRng::new(1);
    assert_eq!(rng.below(0), 0);
    assert_eq!(rng.state(), 1);
    assert_eq!(rng.below(10), (1_103_527_590 ^ (1_103_527_590 >> 16)) % 10);
    // Bits 16 to 20 of the first state are 0b00110: -10, of 40 is -25.
    let mut rng = LcgRng::new(1);
    let bits = ((1_103_527_590u32 >> 16) & 0x1F) as i16 - 16;
    assert_eq!(rng.signed(40), bits * 40 / 16);
}

#[test]
fn lowest_bit_ping_pongs() {
    let mut rng = LcgRng::new(7);
    let mut last = rng.state() & 1;
    for _ in 0..50 {
        let bit = rng.next() & 1;
        assert_ne!(bit, last);
        last = bit;
    }
}

#[test]
fn low_bits_come_back() {
    for k in [0u32, 3, 7] {
        let period = 1usize << (k + 1);
        let mask = (1u32 << (k + 1)) - 1;
        let mut rng = LcgRng::new(0xDEAD_BEEF);
        let draws: Vec<u32> = (0..3 * period).map(|_| rng.next() & mask).collect();
        for n in 0..2 * period {
            assert_eq!(draws[n], draws[n + period], "bit {k}, draw {n}");
        }
    }
}
