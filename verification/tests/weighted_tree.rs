use randkit::mock::StepRng;
use randkit::weighted_tree::{WeightedError, WeightedTreeIndex};

fn rng(seed: u64) -> StepRng {
    StepRng::new(seed, 0x9e37_79b9_7f4a_7c15)
}

#[test]
fn test_no_item_error() {
    let mut rng = rng(0x9c9fa0b0580a7031);
    let tree = WeightedTreeIndex::<i32>::new(&[]).unwrap();
    assert_eq!(tree.sample(&mut rng).unwrap_err(), WeightedError::NoItem);
}

#[test]
fn test_overflow_error() {
    assert_eq!(
        WeightedTreeIndex::new(&[i32::MAX, 2]),
        Err(WeightedError::Overflow)
    );
    let mut tree = WeightedTreeIndex::new(&[i32::MAX - 2, 1]).unwrap();
    assert_eq!(tree.push(3), Err(WeightedError::Overflow));
    assert_eq!(tree.update(1, 4), Err(WeightedError::Overflow));
    tree.update(1, 2).unwrap();
}

#[test]
fn test_all_weights_zero_error() {
    let tree = WeightedTreeIndex::<i32>::new(&[0, 0]).unwrap();
    let mut rng = rng(0x9c9fa0b0580a7031);
    assert_eq!(
        tree.sample(&mut rng).unwrap_err(),
        WeightedError::AllWeightsZero
    );
}

#[test]
fn test_invalid_weight_error() {
    assert_eq!(
        WeightedTreeIndex::<i32>::new(&[1, -1]).unwrap_err(),
        WeightedError::InvalidWeight
    );
    let mut tree = WeightedTreeIndex::<i32>::new(&[]).unwrap();
    assert_eq!(tree.push(-1).unwrap_err(), WeightedError::InvalidWeight);
    tree.push(1).unwrap();
    assert_eq!(
        tree.update(0, -1).unwrap_err(),
        WeightedError::InvalidWeight
    );
}

#[test]
fn test_tree_modifications() {
    let mut tree = WeightedTreeIndex::new(&[9, 1, 2]).unwrap();
    tree.push(3).unwrap();
    tree.push(5).unwrap();
    tree.update(0, 0).unwrap();
    assert_eq!(tree.pop(), Some(5));
    let expected = WeightedTreeIndex::new(&[0, 1, 2, 3]).unwrap();
    assert_eq!(tree, expected);
}

#[test]
fn test_sample_counts_match_probabilities() {
    let start = 1;
    let end = 3;
    let samples = 20;
    let mut rng = rng(0x9c9fa0b0580a7031);
    let initial: Vec<i32> = vec![7, 11, 13];
    let mut tree = WeightedTreeIndex::new(&initial).unwrap();
    let mut total_weight = 0.0;
    let mut weights = vec![0.0; end];
    for i in 0..end {
        tree.update(i, i as i32).unwrap();
        weights[i] = i as f64;
        total_weight += i as f64;
    }
    for i in 0..start {
        tree.update(i, 0).unwrap();
        weights[i] = 0.0;
        total_weight -= i as f64;
    }
    let mut counts = vec![0_usize; end];
    for _ in 0..samples {
        let i = tree.sample(&mut rng).unwrap();
        counts[i] += 1;
    }
    for i in 0..start {
        assert_eq!(counts[i], 0);
    }
    for i in start..end {
        let diff = counts[i] as f64 / samples as f64 - weights[i] / total_weight;
        assert!(diff.abs() < 0.05);
    }
}

#[test]
fn get_returns_the_weights_given() {
    let weights = [4, 0, 7, 1, 1, 9, 3];
    let tree = WeightedTreeIndex::<i32>::new(&weights).unwrap();
    assert_eq!(tree.len(), 7);
    assert!(!tree.is_empty());
    for i in 0..weights.len() {
        assert_eq!(tree.get(i), weights[i]);
    }
}

#[test]
fn push_then_pop_restores_the_tree() {
    let mut tree = WeightedTreeIndex::<i32>::new(&[4, 0, 7, 1, 1]).unwrap();
    let before = tree.clone();
    tree.push(6).unwrap();
    assert_eq!(tree.len(), 6);
    assert_eq!(tree.get(5), 6);
    assert_eq!(tree.pop(), Some(6));
    assert_eq!(tree, before);
}

#[test]
fn update_then_get_returns_the_new_weight() {
    let mut tree = WeightedTreeIndex::<i32>::new(&[4, 0, 7, 1, 1]).unwrap();
    tree.update(2, 3).unwrap();
    assert_eq!(tree.get(2), 3);
    tree.update(2, 30).unwrap();
    assert_eq!(tree.get(2), 30);
    assert_eq!(tree.get(0), 4);
    assert_eq!(tree.get(4), 1);
    tree.update(2, 30).unwrap();
    assert_eq!(tree, WeightedTreeIndex::<i32>::new(&[4, 0, 30, 1, 1]).unwrap());
}

#[test]
fn refused_operations_leave_the_tree_as_it_was() {
    let mut tree = WeightedTreeIndex::<i32>::new(&[i32::MAX - 5, 2, 3]).unwrap();
    let before = tree.clone();
    assert_eq!(tree.push(1), Err(WeightedError::Overflow));
    assert_eq!(tree, before);
    assert_eq!(tree.update(1, 3), Err(WeightedError::Overflow));
    assert_eq!(tree, before);
    assert_eq!(tree.push(-1), Err(WeightedError::InvalidWeight));
    assert_eq!(tree.update(0, -3), Err(WeightedError::InvalidWeight));
    assert_eq!(tree, before);
    assert_eq!(tree.update(0, i32::MAX - 6), Ok(()));
    assert_eq!(tree.push(1), Ok(()));
}

#[test]
fn pop_on_empty_tree_gives_nothing() {
    let mut tree = WeightedTreeIndex::<i32>::new(&[]).unwrap();
    assert!(tree.is_empty());
    assert_eq!(tree.pop(), None);
    tree.push(8).unwrap();
    assert_eq!(tree.pop(), Some(8));
    assert_eq!(tree.pop(), None);
    assert!(!tree.can_sample());
}

#[test]
fn can_sample_needs_a_positive_total() {
    assert!(!WeightedTreeIndex::<i32>::new(&[]).unwrap().can_sample());
    assert!(!WeightedTreeIndex::<i32>::new(&[0, 0, 0]).unwrap().can_sample());
    assert!(WeightedTreeIndex::<i32>::new(&[0, 0, 1]).unwrap().can_sample());
}

#[test]
fn locate_walks_left_then_right_then_self() {
    // Node 0 has children 1 and 2, node 1 has children 3 and 4.
    // Order of the stretches: 3, 4, 1, 2, 0.
    let tree = WeightedTreeIndex::<i32>::new(&[5, 2, 3, 1, 4]).unwrap();
    let expected = [3, 4, 4, 4, 4, 1, 1, 2, 2, 2, 0, 0, 0, 0, 0];
    for target in 0..15 {
        assert_eq!(tree.locate(target), expected[target as usize]);
    }
}

#[test]
fn sample_never_returns_an_index_of_weight_zero() {
    let tree = WeightedTreeIndex::<i32>::new(&[0, 3, 0, 0, 1, 0]).unwrap();
    let mut rng = rng(17);
    let mut counts = [0usize; 6];
    for _ in 0..4000 {
        counts[tree.sample(&mut rng).unwrap()] += 1;
    }
    assert_eq!(counts[0] + counts[2] + counts[3] + counts[5], 0);
    let share = counts[1] as f64 / 4000.0;
    assert!((share - 0.75).abs() < 0.02);
}

#[test]
fn sample_maps_the_draw_onto_the_total() {
    let tree = WeightedTreeIndex::<i32>::new(&[5, 2, 3, 1, 4]).unwrap();
    // total 15; a draw of 2^63 falls on 7, in the stretch of node 2
    let mut rng = StepRng::new(1 << 63, 0);
    assert_eq!(tree.sample(&mut rng), Ok(2));
    let mut rng = StepRng::new(0, 0);
    assert_eq!(tree.sample(&mut rng), Ok(3));
    let mut rng = StepRng::new(u64::MAX, 0);
    assert_eq!(tree.sample(&mut rng), Ok(0));
}

#[test]
fn each_index_gets_as_many_targets_as_its_weight() {
    let weights = [5, 0, 3, 1, 4, 0, 2];
    let tree = WeightedTreeIndex::<i32>::new(&weights).unwrap();
    let mut counts = [0i32; 7];
    for target in 0..15 {
        counts[tree.locate(target)] += 1;
    }
    assert_eq!(counts, weights);
}

#[test]
fn weights_of_8_and_16_bits() {
    assert_eq!(WeightedTreeIndex::<u8>::new(&[200, 56]), Err(WeightedError::Overflow));
    let mut tree = WeightedTreeIndex::<u8>::new(&[200, 55]).unwrap();
    assert_eq!(tree.push(1), Err(WeightedError::Overflow));
    assert_eq!(tree.update(1, 5), Ok(()));
    assert_eq!(tree.get(0), 200);
    assert_eq!(tree.get(1), 5);
    assert_eq!(tree.sample(&mut StepRng::new(u64::MAX, 0)), Ok(0));
    assert_eq!(tree.sample(&mut StepRng::new(0, 0)), Ok(1));

    assert_eq!(WeightedTreeIndex::<i8>::new(&[100, 28]), Err(WeightedError::Overflow));
    assert_eq!(WeightedTreeIndex::<i8>::new(&[1, -1]), Err(WeightedError::InvalidWeight));
    let tree = WeightedTreeIndex::<i8>::new(&[100, 27]).unwrap();
    assert_eq!(tree.locate(26), 1);
    assert_eq!(tree.locate(27), 0);

    assert_eq!(WeightedTreeIndex::<u16>::new(&[65535, 1]), Err(WeightedError::Overflow));
    assert_eq!(WeightedTreeIndex::<i16>::new(&[32767, 1]), Err(WeightedError::Overflow));
    let mut tree = WeightedTreeIndex::<i16>::new(&[3, 4]).unwrap();
    tree.push(32760).unwrap();
    assert_eq!(tree.pop(), Some(32760));
    assert_eq!(tree, WeightedTreeIndex::<i16>::new(&[3, 4]).unwrap());
    let tree = WeightedTreeIndex::<u16>::new(&[3, 4]).unwrap();
    assert_eq!(tree.sample(&mut StepRng::new(1 << 63, 0)), Ok(1));
}

#[test]
fn weights_of_pointer_size() {
    assert_eq!(WeightedTreeIndex::<usize>::new(&[usize::MAX, 1]), Err(WeightedError::Overflow));
    assert_eq!(WeightedTreeIndex::<isize>::new(&[isize::MAX, 1]), Err(WeightedError::Overflow));
    assert_eq!(WeightedTreeIndex::<isize>::new(&[0, -5]), Err(WeightedError::InvalidWeight));
    let mut tree = WeightedTreeIndex::<usize>::new(&[10, 20, 30]).unwrap();
    tree.update(2, 0).unwrap();
    tree.update(0, 70).unwrap();
    assert_eq!(tree, WeightedTreeIndex::<usize>::new(&[70, 20, 0]).unwrap());
    // total 90; a draw of 2^62 falls on 22, beyond the 20 of index 1
    assert_eq!(tree.sample(&mut StepRng::new(1 << 62, 0)), Ok(0));
    assert_eq!(tree.sample(&mut StepRng::new(1 << 61, 0)), Ok(1));
    let tree = WeightedTreeIndex::<isize>::new(&[isize::MAX - 1, 1]).unwrap();
    assert_eq!(tree.sample(&mut StepRng::new(0, 0)), Ok(1));
    assert_eq!(tree.sample(&mut StepRng::new(u64::MAX, 0)), Ok(0));
}

#[test]
fn weights_of_128_bits() {
    assert_eq!(WeightedTreeIndex::<u128>::new(&[u128::MAX, 1]), Err(WeightedError::Overflow));
    assert_eq!(WeightedTreeIndex::<i128>::new(&[i128::MAX, 1]), Err(WeightedError::Overflow));
    assert_eq!(WeightedTreeIndex::<i128>::new(&[-1]), Err(WeightedError::InvalidWeight));
    // total 2^101: a draw d falls on d * 2^37, the second weight takes the lower half
    let big = 1u128 << 100;
    let tree = WeightedTreeIndex::<u128>::new(&[big, big]).unwrap();
    assert_eq!(tree.sample(&mut StepRng::new((1 << 63) - 1, 0)), Ok(1));
    assert_eq!(tree.sample(&mut StepRng::new(1 << 63, 0)), Ok(0));
    assert_eq!(tree.locate(big - 1), 1);
    assert_eq!(tree.locate(big), 0);
    // a small total is scaled as with 64 bits
    let tree = WeightedTreeIndex::<u128>::new(&[1, 3]).unwrap();
    assert_eq!(tree.sample(&mut StepRng::new(3 << 62, 0)), Ok(0));
    assert_eq!(tree.sample(&mut StepRng::new((3 << 62) - 1, 0)), Ok(1));
    let tree = WeightedTreeIndex::<i128>::new(&[i128::MAX - 7, 7]).unwrap();
    assert_eq!(tree.sample(&mut StepRng::new(0, 0)), Ok(1));
    assert_eq!(tree.sample(&mut StepRng::new(u64::MAX, 0)), Ok(0));
    assert_eq!(tree.get(0), i128::MAX - 7);
}
