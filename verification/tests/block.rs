use rand_chacha::rand_core::{RngCore, SeedableRng};
use rand_chacha::ChaCha12Rng;
use randkit::block::{BlockRng, BlockRngCore};
use randkit::chacha::Core;
use randkit::error::ErrorKind;
use randkit::mock::StepRng;
use randkit::rng::{Rng, SeedFromRng};

fn seed() -> [u8; 32] {
    let mut seed = [0u8; 32];
    for (i, byte) in seed.iter_mut().enumerate() {
        *byte = (i * 7 + 1) as u8;
    }
    seed
}

#[test]
fn core_generates_the_chacha_stream() {
    let mut core = Core::from_seed(seed());
    let mut reference = ChaCha12Rng::from_seed(seed());
    let mut block = Vec::new();
    for _ in 0..3 {
        core.generate(&mut block);
        assert_eq!(block.len(), 64);
        assert_eq!(Core::results_len(), 64);
        for word in block.iter() {
            assert_eq!(*word, reference.next_u32());
        }
    }
}

#[test]
fn core_is_seeded_with_one_fill_of_32_bytes() {
    let mut source = StepRng::new(0x0807_0605_0403_0201, 0x0808_0808_0808_0808);
    let mut core = Core::from_rng(&mut source).unwrap();
    assert_eq!(source.next_u64(), 0x2827_2625_2423_2221);
    let mut key = [0u8; 32];
    for (i, byte) in key.iter_mut().enumerate() {
        *byte = i as u8 + 1;
    }
    let mut expected = Core::from_seed(key);
    let (mut a, mut b) = (Vec::new(), Vec::new());
    core.generate(&mut a);
    expected.generate(&mut b);
    assert_eq!(a, b);
}

#[test]
fn block_rng_hands_out_words_in_order() {
    let mut rng = BlockRng::new(Core::from_seed(seed()));
    let mut reference = ChaCha12Rng::from_seed(seed());
    assert_eq!(rng.index(), 64);
    for _ in 0..200 {
        assert_eq!(rng.next_u32(), reference.next_u32());
    }
    assert_eq!(rng.index(), 200 - 3 * 64);
}

#[test]
fn block_rng_joins_words_across_blocks() {
    let mut rng = BlockRng::new(Core::from_seed(seed()));
    let mut reference = ChaCha12Rng::from_seed(seed());
    // 63 words, then a 64-bit value made of the last word of one block and the first
    // of the next
    for _ in 0..63 {
        assert_eq!(rng.next_u32(), reference.next_u32());
    }
    assert_eq!(rng.next_u64(), reference.next_u64());
    assert_eq!(rng.index(), 1);
    for _ in 0..40 {
        assert_eq!(rng.next_u64(), reference.next_u64());
    }
    assert_eq!(rng.next_u32(), reference.next_u32());
}

#[test]
fn block_rng_fills_bytes_as_the_reference_does() {
    let mut rng = BlockRng::new(Core::from_seed(seed()));
    let mut reference = ChaCha12Rng::from_seed(seed());
    for len in [0usize, 1, 3, 4, 5, 255, 256, 257, 700, 2] {
        let mut a = vec![0u8; len];
        let mut b = vec![0u8; len];
        rng.fill_bytes(&mut a);
        reference.fill_bytes(&mut b);
        assert_eq!(a, b);
        assert_eq!(rng.next_u32(), reference.next_u32());
    }
    let mut a = [0u8; 9];
    let mut b = [0u8; 9];
    assert!(rng.try_fill(&mut a).is_ok());
    reference.fill_bytes(&mut b);
    assert_eq!(a, b);
}

#[test]
fn reset_discards_what_is_buffered() {
    let mut rng = BlockRng::new(Core::from_seed(seed()));
    let mut reference = Core::from_seed(seed());
    let mut block = Vec::new();
    reference.generate(&mut block);
    assert_eq!(rng.next_u32(), block[0]);
    rng.reset();
    assert_eq!(rng.index(), 64);
    reference.generate(&mut block);
    assert_eq!(rng.next_u32(), block[0]);
    rng.generate_and_set(5);
    reference.generate(&mut block);
    assert_eq!(rng.index(), 5);
    assert_eq!(rng.next_u32(), block[5]);
    let copy = rng.core_ref().clone();
    let mut by_copy = BlockRng::new(copy);
    rng.reset();
    assert_eq!(rng.next_u64(), by_copy.next_u64());
}

#[test]
fn core_moves_on_by_four_blocks() {
    let mut core = Core::from_seed(seed());
    assert_eq!(core.block_position(), 0);
    let mut block = Vec::new();
    core.generate(&mut block);
    assert_eq!(core.block_position(), 4);
    core.generate(&mut block);
    assert_eq!(core.block_position(), 8);
}

#[test]
fn seeding_outcome_is_the_seeded_core_or_the_one_failure() {
    let mut seeded = Core::from_entropy_outcome::<u8>(seed(), Ok(())).ok().unwrap();
    let mut expected = Core::from_seed(seed());
    assert_eq!(seeded.block_position(), 0);
    let (mut a, mut b) = (Vec::new(), Vec::new());
    seeded.generate(&mut a);
    expected.generate(&mut b);
    assert_eq!(a, b);

    let failure = Core::from_entropy_outcome(seed(), Err("no entropy")).err().unwrap();
    assert_eq!(failure.kind(), ErrorKind::Unavailable);
    assert_eq!(failure.msg(), "OS entropy source failed");
    assert!(failure.cause().is_none());
    assert!(!failure.kind().should_retry());
}

#[test]
fn core_from_the_operating_system_starts_its_stream() {
    let mut first = Core::from_os_entropy().ok().unwrap();
    let mut second = Core::from_os_entropy().ok().unwrap();
    assert_eq!(first.block_position(), 0);
    assert_eq!(second.block_position(), 0);
    let (mut a, mut b) = (Vec::new(), Vec::new());
    first.generate(&mut a);
    second.generate(&mut b);
    assert_eq!(a.len(), 64);
    assert_ne!(a, b);
}
