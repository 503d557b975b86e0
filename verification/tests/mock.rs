use randkit::mock::StepRng;
use randkit::rng::Rng;

#[test]
fn step_rng_yields_an_arithmetic_sequence() {
    let mut rng = StepRng::new(2, 1);
    assert_eq!(rng.next_u64(), 2);
    assert_eq!(rng.next_u64(), 3);
    assert_eq!(rng.next_u64(), 4);
    assert_eq!(rng.bytes_per_round(), 8);
}

#[test]
fn step_rng_wraps_around() {
    let mut rng = StepRng::new(u64::MAX - 1, 3);
    assert_eq!(rng.next_u64(), u64::MAX - 1);
    assert_eq!(rng.next_u64(), 1);
    assert_eq!(rng.next_u64(), 4);
}

#[test]
fn step_rng_next_u32_keeps_the_low_half() {
    let mut rng = StepRng::new(0x1234_5678_9abc_def0, 0x1_0000_0001);
    assert_eq!(rng.next_u32(), 0x9abc_def0);
    assert_eq!(rng.next_u32(), 0x9abc_def1);
    assert_eq!(rng.next_u64(), 0x1234_567a_9abc_def2);
}

#[test]
fn step_rng_fills_bytes_little_endian() {
    let mut rng = StepRng::new(0x0807_0605_0403_0201, 0x1010_1010_1010_1010);
    let mut dest = [0u8; 21];
    rng.fill_bytes(&mut dest);
    assert_eq!(
        dest,
        [
            1, 2, 3, 4, 5, 6, 7, 8, 0x11, 0x12, 0x13, 0x14, 0x15, 0x16, 0x17, 0x18, 0x21, 0x22,
            0x23, 0x24, 0x25
        ]
    );
    // a rest of five bytes took a whole 64-bit step
    assert_eq!(rng.next_u64(), 0x3837_3635_3433_3231);
    let mut short = [0u8; 3];
    assert!(rng.try_fill(&mut short).is_ok());
    assert_eq!(short, [0x41, 0x42, 0x43]);
    assert_eq!(rng.next_u64(), 0x5857_5655_5453_5251);
    let mut none = [0u8; 0];
    rng.fill_bytes(&mut none);
    assert_eq!(rng.next_u64(), 0x6867_6665_6463_6261);
}

#[test]
fn boxed_generator_hands_on_every_call() {
    let mut plain = StepRng::new(7, 11);
    let mut boxed = Box::new(StepRng::new(7, 11));
    assert_eq!(plain.next_u32(), boxed.next_u32());
    assert_eq!(plain.next_u64(), boxed.next_u64());
    let mut a = [0u8; 13];
    let mut b = [0u8; 13];
    plain.fill_bytes(&mut a);
    boxed.fill_bytes(&mut b);
    assert_eq!(a, b);
    assert!(boxed.try_fill(&mut b).is_ok());
    assert!(plain.try_fill(&mut a).is_ok());
    assert_eq!(a, b);
}

fn draw_twice<R: Rng>(mut rng: R) -> (u32, u64) {
    (rng.next_u32(), rng.next_u64())
}

#[test]
fn borrowed_generator_hands_on_every_call() {
    let mut plain = StepRng::new(7, 11);
    assert_eq!(draw_twice(&mut plain), (7, 18));
    assert_eq!(plain.next_u64(), 29);
    let mut dest = [0u8; 4];
    {
        let mut borrowed = &mut plain;
        Rng::fill_bytes(&mut borrowed, &mut dest);
        assert!(Rng::try_fill(&mut borrowed, &mut dest).is_ok());
    }
    assert_eq!(dest, [51, 0, 0, 0]);
    assert_eq!(plain.next_u64(), 62);
}
