use rand_chacha::rand_core::{RngCore, SeedableRng};
use rand_chacha::ChaCha12Rng;
use randkit::chacha::Core;
use randkit::error::{Error, ErrorKind};
use randkit::thread_rng::{InnerState, RESEED_THRESHOLD};

#[test]
fn budget_counts_the_bytes_handed_out() {
    let mut state = InnerState::new().unwrap();
    assert_eq!(RESEED_THRESHOLD, 64 * 1024);
    assert_eq!(state.bytes_until_reseed(), RESEED_THRESHOLD);
    let _ = state.next_u32();
    assert_eq!(state.bytes_until_reseed(), RESEED_THRESHOLD - 4);
    let _ = state.next_u64();
    assert_eq!(state.bytes_until_reseed(), RESEED_THRESHOLD - 12);
    let mut dest = [0u8; 100];
    state.fill_bytes(&mut dest);
    assert_eq!(state.bytes_until_reseed(), RESEED_THRESHOLD - 112);
    assert!(dest.iter().any(|b| *b != 0));
}

#[test]
fn used_up_budget_is_made_whole_before_the_next_output() {
    let mut state = InnerState::new().unwrap();
    let mut dest = vec![0u8; RESEED_THRESHOLD as usize];
    state.fill_bytes(&mut dest);
    assert_eq!(state.bytes_until_reseed(), 0);
    let _ = state.next_u32();
    assert_eq!(state.bytes_until_reseed(), RESEED_THRESHOLD - 4);
    state.reseed_check(10);
    assert_eq!(state.bytes_until_reseed(), RESEED_THRESHOLD - 14);
}

#[test]
fn manual_reseed_makes_the_budget_whole() {
    let mut state = InnerState::new().unwrap();
    let mut other = InnerState::new().unwrap();
    let _ = state.next_u64();
    assert!(state.reseed().is_ok());
    assert_eq!(state.bytes_until_reseed(), RESEED_THRESHOLD);
    assert_ne!(state.next_u64(), other.next_u64());
}

fn seed() -> [u8; 32] {
    let mut seed = [0u8; 32];
    for (i, byte) in seed.iter_mut().enumerate() {
        *byte = (i * 5 + 3) as u8;
    }
    seed
}

#[test]
fn state_from_a_seeded_core_hands_out_its_stream() {
    let mut state = InnerState::from_seeding(Ok(Core::from_seed(seed()))).ok().unwrap();
    let mut reference = ChaCha12Rng::from_seed(seed());
    assert_eq!(state.bytes_until_reseed(), RESEED_THRESHOLD);
    for _ in 0..70 {
        assert_eq!(state.next_u32(), reference.next_u32());
    }
    assert_eq!(state.next_u64(), reference.next_u64());
    let mut a = [0u8; 33];
    let mut b = [0u8; 33];
    state.fill_bytes(&mut a);
    reference.fill_bytes(&mut b);
    assert_eq!(a, b);
    assert_eq!(state.bytes_until_reseed(), RESEED_THRESHOLD - 70 * 4 - 8 - 33);
}

#[test]
fn state_from_a_failed_seeding_is_the_failure() {
    let failure = Error::new(ErrorKind::NotReady, "no seed yet");
    let handed_on = InnerState::from_seeding(Err(failure)).err().unwrap();
    assert_eq!(handed_on.kind(), ErrorKind::NotReady);
    assert_eq!(handed_on.msg(), "no seed yet");
    assert!(handed_on.cause().is_none());
}

#[test]
fn reseed_from_a_seeded_core_takes_its_stream() {
    let mut state = InnerState::from_seeding(Ok(Core::from_seed([1u8; 32]))).ok().unwrap();
    let _ = state.next_u32();
    assert!(state.reseed_from(Ok(Core::from_seed(seed()))).is_ok());
    assert_eq!(state.bytes_until_reseed(), RESEED_THRESHOLD);
    let mut reference = ChaCha12Rng::from_seed(seed());
    for _ in 0..5 {
        assert_eq!(state.next_u32(), reference.next_u32());
    }
}

#[test]
fn reseed_from_a_failure_keeps_the_generator() {
    let mut state = InnerState::from_seeding(Ok(Core::from_seed(seed()))).ok().unwrap();
    let mut reference = ChaCha12Rng::from_seed(seed());
    for _ in 0..3 {
        assert_eq!(state.next_u32(), reference.next_u32());
    }
    let failure = Error::new(ErrorKind::Transient, "try again");
    let handed_on = state.reseed_from(Err(failure)).err().unwrap();
    assert_eq!(handed_on.kind(), ErrorKind::Transient);
    assert_eq!(handed_on.msg(), "try again");
    assert_eq!(state.bytes_until_reseed(), RESEED_THRESHOLD);
    for _ in 0..100 {
        assert_eq!(state.next_u32(), reference.next_u32());
    }
}

#[test]
fn reseed_and_charge_takes_the_bytes_off_the_whole_budget() {
    let mut state = InnerState::from_seeding(Ok(Core::from_seed([1u8; 32]))).ok().unwrap();
    let mut kept = ChaCha12Rng::from_seed([1u8; 32]);
    assert_eq!(state.next_u32(), kept.next_u32());
    // a failed seeding is passed over: the stream goes on
    state.reseed_and_charge(Err(Error::new(ErrorKind::Unavailable, "none")), 40);
    assert_eq!(state.bytes_until_reseed(), RESEED_THRESHOLD - 40);
    assert_eq!(state.next_u32(), kept.next_u32());
    // a seeded core takes over
    state.reseed_and_charge(Ok(Core::from_seed(seed())), 8);
    assert_eq!(state.bytes_until_reseed(), RESEED_THRESHOLD - 8);
    let mut reference = ChaCha12Rng::from_seed(seed());
    assert_eq!(state.next_u64(), reference.next_u64());
    assert_eq!(state.bytes_until_reseed(), RESEED_THRESHOLD - 16);
}
