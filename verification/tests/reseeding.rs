use randkit::block::BlockRngCore;
use randkit::chacha::Core;
use randkit::mock::StepRng;
use randkit::reseeding::{ReseedingCore, ReseedingRng};
use randkit::rng::{Rng, SeedFromRng};

fn fill(rng: &mut ReseedingRng<Core, StepRng>, dest: &mut [u32]) {
    let mut bytes = vec![0u8; dest.len() * 4];
    rng.fill_bytes(&mut bytes);
    for (i, word) in dest.iter_mut().enumerate() {
        *word = u32::from_le_bytes([
            bytes[4 * i],
            bytes[4 * i + 1],
            bytes[4 * i + 2],
            bytes[4 * i + 3],
        ]);
    }
}

#[test]
fn test_reseeding() {
    let mut zero = StepRng::new(0, 0);
    let rng = Core::from_rng(&mut zero).unwrap();
    let thresh = 1; // reseed every time the buffer is exhausted
    let mut reseeding = ReseedingRng::new(rng, thresh, zero);

    // RNG buffer size is [u32; 64]
    let mut buf = ([0u32; 32], [0u32; 32]);
    fill(&mut reseeding, &mut buf.0);
    fill(&mut reseeding, &mut buf.1);
    let seq = buf;
    for _ in 0..10 {
        fill(&mut reseeding, &mut buf.0);
        fill(&mut reseeding, &mut buf.1);
        assert_eq!(buf, seq);
    }
}

#[test]
fn test_clone_reseeding() {
    let mut zero = StepRng::new(0, 0);
    let rng = Core::from_rng(&mut zero).unwrap();
    let mut rng1 = ReseedingRng::new(rng, 32 * 4, zero);

    let first: u32 = rng1.next_u32();
    for _ in 0..10 {
        let _ = rng1.next_u32();
    }

    let mut rng2 = rng1.clone();
    assert_eq!(first, rng2.next_u32());
}

#[test]
fn equal_cores_give_equal_output() {
    let make = || {
        let mut source = StepRng::new(3, 5);
        let rng = Core::from_rng(&mut source).unwrap();
        ReseedingRng::new(rng, 300, source)
    };
    let mut a = make();
    let mut b = make();
    for round in 0..200 {
        if round % 3 == 0 {
            assert_eq!(a.next_u64(), b.next_u64());
        } else {
            assert_eq!(a.next_u32(), b.next_u32());
        }
    }
    let mut x = [0u8; 77];
    let mut y = [0u8; 77];
    a.fill_bytes(&mut x);
    b.fill_bytes(&mut y);
    assert_eq!(x, y);
}

#[test]
fn reseed_happens_when_the_threshold_is_reached() {
    // Blocks are 256 bytes. With a threshold of 600 the budget lasts for three blocks.
    let mut source = StepRng::new(0, 1);
    let inner = Core::from_rng(&mut source).unwrap();
    let mut never = Core::from_rng(&mut StepRng::new(0, 1)).unwrap();
    let mut core = ReseedingCore::new(inner, 600, source);
    let mut block = Vec::new();
    let mut plain = Vec::new();
    for _ in 0..3 {
        core.generate(&mut block);
        never.generate(&mut plain);
        assert_eq!(block, plain);
    }
    // The fourth block comes from a generator seeded with the source's next bytes.
    core.generate(&mut block);
    never.generate(&mut plain);
    assert_ne!(block, plain);
    let mut source = StepRng::new(0, 1);
    let _ = Core::from_rng(&mut source).unwrap();
    let mut reseeded = Core::from_rng(&mut source).unwrap();
    reseeded.generate(&mut plain);
    assert_eq!(block, plain);
}

#[test]
fn threshold_zero_never_reseeds() {
    let mut source = StepRng::new(9, 1);
    let inner = Core::from_rng(&mut source).unwrap();
    let mut plain = inner.clone();
    let mut core = ReseedingCore::new(inner, 0, source);
    let mut block = Vec::new();
    let mut expected = Vec::new();
    for _ in 0..50 {
        core.generate(&mut block);
        plain.generate(&mut expected);
        assert_eq!(block, expected);
    }
}

#[test]
fn manual_reseed_discards_the_buffer() {
    let mut source = StepRng::new(1, 1);
    let inner = Core::from_rng(&mut source).unwrap();
    let mut rng = ReseedingRng::new(inner, 0, source);
    let _ = rng.next_u32();
    assert!(rng.reseed().is_ok());
    let mut source = StepRng::new(1, 1);
    let _ = Core::from_rng(&mut source).unwrap();
    let mut fresh = Core::from_rng(&mut source).unwrap();
    let mut block = Vec::new();
    fresh.generate(&mut block);
    assert_eq!(rng.next_u32(), block[0]);
    assert_eq!(rng.next_u32(), block[1]);
}

#[test]
fn clone_goes_its_own_way_after_reseed() {
    let mut source = StepRng::new(1, 1);
    let inner = Core::from_rng(&mut source).unwrap();
    let mut first = ReseedingRng::new(inner, 0, source);
    let _ = first.next_u64();
    let mut copy = first.clone();
    assert_ne!(first.next_u64(), copy.next_u64());
}
