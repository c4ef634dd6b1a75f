use ufos_core::bitwise_spinlock::{backoff, backoff_draw, backoff_generator, Backoff, Bitlock};
use ufos_core::errors::BitlockErr;

#[test]
fn multiplier_is_the_first_coprime_from_512() {
    assert_eq!(Bitlock::new(0, 245).coprime_multiplier, 512);
    assert_eq!(Bitlock::new(0, 256).coprime_multiplier, 513);
    assert_eq!(Bitlock::new(0, 2).coprime_multiplier, 513);
    assert_eq!(Bitlock::new(0, 1).coprime_multiplier, 512);
    assert_eq!(Bitlock::new(0, 0).coprime_multiplier, 512);
    // 512 = 2^9, 513 = 3^3 * 19, 514 = 2 * 257, 515 = 5 * 103
    assert_eq!(Bitlock::new(0, 2 * 3 * 5).coprime_multiplier, 517);
    assert_eq!(Bitlock::new(0, 513).coprime_multiplier, 512);
}

#[test]
fn index_is_permuted_before_it_is_split() {
    let locks = Bitlock::new(4096, 245);
    let at = locks.map_index(1).expect("in range");
    // 512 mod 245 = 22
    assert_eq!(at.byte_idx, 2);
    assert_eq!(at.bit, 1 << 6);
    let at = locks.map_index(0).expect("in range");
    assert_eq!((at.byte_idx, at.bit), (0, 1));
    let at = locks.map_index(244).expect("in range");
    // 244 * 512 mod 245 = 223
    assert_eq!((at.byte_idx, at.bit), (27, 1 << 7));
    assert_eq!(locks.map_index(245).unwrap_err(), BitlockErr::OutOfBounds(245, 245));
    assert_eq!(locks.map_index(usize::MAX).unwrap_err(), BitlockErr::OutOfBounds(usize::MAX, 245));
}

#[test]
fn a_large_index_does_not_overflow() {
    let ct = usize::MAX - 1;
    let locks = Bitlock::new(0, ct);
    let at = locks.map_index(ct - 1).expect("in range");
    let expected = ((ct as u128 - 1) * locks.coprime_multiplier as u128 % ct as u128) as usize;
    assert_eq!(at.byte_idx, expected / 8);
    assert_eq!(at.bit, 1 << (expected % 8));
}

#[test]
fn lock_and_unlock() {
    let mut locks = Bitlock::new(8, 245);
    let mut region = vec![0u8; 8 + 31];
    let guard = locks.lock_uncontended(&mut region, 1).expect("free");
    assert_eq!(guard.index(), 1);
    assert_eq!(region[8 + 2], 1 << 6);
    assert_eq!(region.iter().filter(|b| **b != 0).count(), 1);
    assert_eq!(locks.lock_uncontended(&mut region, 1).unwrap_err(), BitlockErr::Contended(1));
    assert_eq!(region[8 + 2], 1 << 6);
    let other = locks.lock_uncontended(&mut region, 2).expect("free");
    guard.unlock(&mut locks, &mut region);
    assert!(!locks.poisoned);
    assert_eq!(region.iter().filter(|b| **b != 0).count(), 1);
    locks.unlock(&mut region, &other);
    assert!(region.iter().all(|b| *b == 0));
    assert!(locks.lock_uncontended(&mut region, 1).is_ok());
    assert_eq!(
        locks.lock_uncontended(&mut region, 245).unwrap_err(),
        BitlockErr::OutOfBounds(245, 245)
    );
}

#[test]
fn every_lock_has_a_bit_of_its_own() {
    for ct in [1usize, 2, 7, 8, 9, 245, 256, 1000, 1024] {
        let locks = Bitlock::new(0, ct);
        let mut region = vec![0u8; (ct + 7) / 8];
        for idx in 0..ct {
            assert!(locks.lock_uncontended(&mut region, idx).is_ok(), "{} of {}", idx, ct);
        }
        let taken: u32 = region.iter().map(|b| b.count_ones()).sum();
        assert_eq!(taken as usize, ct);
    }
}

#[test]
fn a_failing_holder_poisons_the_locks() {
    let mut locks = Bitlock::new(0, 16);
    let mut region = vec![0u8; 2];
    let guard = locks.lock_uncontended(&mut region, 3).expect("free");
    guard.drop_guard(&mut locks, &mut region, true);
    assert!(locks.poisoned);
    assert!(region.iter().all(|b| *b == 0));
    assert_eq!(locks.lock_uncontended(&mut region, 3).unwrap_err(), BitlockErr::PoisonErr(3));
    assert_eq!(locks.lock_uncontended(&mut region, 4).unwrap_err(), BitlockErr::PoisonErr(4));
    assert_eq!(locks.spinlock(&mut region, 4).unwrap_err(), BitlockErr::PoisonErr(4));
    // the bounds are looked at first
    assert_eq!(locks.lock_uncontended(&mut region, 16).unwrap_err(), BitlockErr::OutOfBounds(16, 16));
    assert!(region.iter().all(|b| *b == 0));
    let mut fresh = Bitlock::new(0, 16);
    fresh.poison();
    assert_eq!(fresh.spinlock(&mut region, 0).unwrap_err(), BitlockErr::PoisonErr(0));
}

#[test]
fn one_round_of_spinning() {
    let locks = Bitlock::new(0, 16);
    let mut region = vec![0u8; 2];
    let guard = locks.spinlock(&mut region, 5).expect("works").expect("free");
    assert_eq!(guard.index(), 5);
    assert!(locks.spinlock(&mut region, 5).expect("works").is_none());
    locks.unlock(&mut region, &guard);
    assert!(locks.spinlock(&mut region, 5).expect("works").is_some());
    assert_eq!(locks.spinlock(&mut region, 16).unwrap_err(), BitlockErr::OutOfBounds(16, 16));
}

#[test]
fn try_lock_sets_the_bit() {
    let mut byte = 0b0000_0100u8;
    assert!(Bitlock::try_lock(&mut byte, 0b0001_0000));
    assert_eq!(byte, 0b0001_0100);
    assert!(!Bitlock::try_lock(&mut byte, 0b0001_0000));
    assert_eq!(byte, 0b0001_0100);
}

#[test]
fn backoff_schedule() {
    assert_eq!(backoff(0, 0), (Backoff::Pause, 1));
    assert_eq!(backoff(0, 3), (Backoff::Pause, 4));
    assert_eq!(backoff(0, 4), (Backoff::Yield, 4));
    assert_eq!(backoff(0xabcd_ef00, 9), (Backoff::Yield, 9));
    assert_eq!(backoff(1, 0), (Backoff::Retry, 0));
    assert_eq!(backoff(31, 7), (Backoff::Retry, 7));
    assert_eq!(backoff(0x1234_561f, 7), (Backoff::Retry, 7));
    assert_eq!(backoff(32, 2), (Backoff::Draw, 2));
    assert_eq!(backoff(0xff, 2), (Backoff::Draw, 2));
}

#[test]
fn draws_of_a_waiting_thread() {
    // the low bytes of the first draws from the seed 12 are 3, 87, 238, 201, 110, 156, 49, 159, 18, 40, 20
    let mut rng = backoff_generator(5, 7);
    assert_eq!(rng.seed(), 12);
    let mut seen = Vec::new();
    for _ in 0..11 {
        seen.push(backoff_draw(&mut rng, 2));
    }
    let retry = (Backoff::Retry, 2);
    let draw = (Backoff::Draw, 2);
    assert_eq!(seen, vec![retry, draw, draw, draw, draw, draw, draw, draw, retry, draw, retry]);
    // the seed wraps around; from 1477776061723855037 the seventh draw ends in 7
    let mut rng = backoff_generator(1477776061723855047, u64::MAX - 9);
    assert_eq!(rng.seed(), 1477776061723855037);
    let mut seen = Vec::new();
    for _ in 0..8 {
        seen.push(backoff_draw(&mut rng, 0).0);
    }
    assert_eq!(
        seen,
        vec![
            Backoff::Draw,
            Backoff::Draw,
            Backoff::Draw,
            Backoff::Draw,
            Backoff::Draw,
            Backoff::Draw,
            Backoff::Retry,
            Backoff::Draw
        ]
    );
    // drawing leaves the seed as it is
    assert_eq!(rng.seed(), 1477776061723855037);
}
