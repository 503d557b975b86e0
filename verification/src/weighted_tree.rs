//! A tree structure for sampling random indices with probabilities proportional to a
//! collection of weights, built for frequent updates of the weights.

use vstd::prelude::*;
use crate::rng::{Rng, Stateful};
use crate::tree_spec::{
    all_nonnegative, built_from, carried_to, carry_target, is_tree, lemma_all_covered,
    lemma_build_done, lemma_build_start, lemma_build_step, lemma_carry_after_pop,
    lemma_carry_after_push, lemma_carry_after_update, lemma_carry_done, lemma_carry_start,
    lemma_carry_step, lemma_index_of, lemma_parent_covers, lemma_prefix_sum_bounds,
    lemma_root_covers, lemma_targets_counted, index_of, targets_of,
    lemma_root_is_sum, lemma_subtotal_is_subtree, lemma_subtotal_nonnegative, lemma_sum_empty,
    lemma_sum_zero, lemma_weights_determine_subtotals, own_weight, subtotal_at, sum,
    weight_before, weight_passed, weights_of,
};
use crate::weight::{lemma_scaled_in_range, scaled, Weight};

verus! {

/// Why a weighted tree refused an operation.
#[derive(Debug, Clone, Copy, PartialEq, Eq, Structural)]
pub enum WeightedError {
    /// The tree holds no weight at all.
    NoItem,
    /// A weight is negative.
    InvalidWeight,
    /// All weights are zero.
    AllWeightsZero,
    /// The sum of the weights is not representable.
    Overflow,
}

/// The integers that a sequence of weights stands for.
pub open spec fn values<W: Weight>(weights: Seq<W>) -> Seq<int> {
    Seq::new(weights.len(), |i: int| weights[i].value())
}

/// A distribution using weighted sampling to pick a discretely selected item.
///
/// The tree is an array of subtotals laid out as an implicit binary tree: the entry
/// of a node is its own weight plus the entries of its children `2i+1` and `2i+2`.
/// Its view is the sequence of the weights themselves.
#[derive(Clone, Debug, PartialEq)]
pub struct WeightedTreeIndex<W: Weight> {
    subtotals: Vec<W>,
}

impl<W: Weight> View for WeightedTreeIndex<W> {
    type V = Seq<int>;

    /// The weights, by index.
    closed spec fn view(&self) -> Seq<int> {
        weights_of(values(self.subtotals@))
    }
}

impl<W: Weight> WeightedTreeIndex<W> {
    /// The subtotals as they are stored, root first.
    pub closed spec fn structure(&self) -> Seq<W> {
        self.subtotals@
    }

    /// Whether the tree is well formed: no weight is negative.
    pub closed spec fn wf(&self) -> bool {
        is_tree(values(self.subtotals@))
    }

    /// The sum of all weights.
    pub open spec fn total(&self) -> int {
        sum(self@)
    }

    /// A well-formed tree holds nonnegative weights whose sum is representable, as many
    /// of them as it stores subtotals.
    pub proof fn lemma_wf(&self)
        requires
            self.wf(),
        ensures
            all_nonnegative(self@),
            0 <= self.total() <= W::max_value(),
            self@.len() == self.structure().len(),
    {
        let s = values(self.subtotals@);
        assert(forall|i: int| 0 <= i < s.len() ==> self@[i] == own_weight(s, i));
        lemma_prefix_sum_bounds(self@, self@.len() as int);
        if s.len() > 0 {
            lemma_root_is_sum(s);
            self.subtotals@[0].lemma_bounds();
        } else {
            W::zero_is_representable();
        }
    }

    /// What is stored: for every node, its own weight plus the stored subtotals of its
    /// children `2i+1` and `2i+2`, where a child that the tree does not have counts as
    /// zero. The weights are what the stored subtotals stand for, and the tree is well
    /// formed exactly when none of them is negative.
    pub proof fn lemma_subtotals(&self)
        ensures
            self@.len() == self.structure().len(),
            self@ == weights_of(values(self.structure())),
            self.wf() <==> is_tree(values(self.structure())),
            self.wf() <==> all_nonnegative(self@),
            forall|i: int|
                0 <= i < self@.len() ==> values(self.structure())[i] == #[trigger] self@[i]
                    + subtotal_at(values(self.structure()), 2 * i + 1) + subtotal_at(
                    values(self.structure()),
                    2 * i + 2,
                ),
            self@.len() > 0 ==> values(self.structure())[0] == self.total(),
    {
        let s = values(self.subtotals@);
        assert forall|i: int| 0 <= i < s.len() implies self@[i] == own_weight(s, i) by {}
        if all_nonnegative(self@) {
            assert forall|i: int| 0 <= i < s.len() implies own_weight(s, i) >= 0 by {
                assert(self@[i] >= 0);
            }
        }
        if s.len() > 0 {
            lemma_root_is_sum(s);
        }
    }

    /// The stored subtotals are a function of the weights alone: two well-formed trees
    /// with the same weights store the same subtotals.
    pub proof fn lemma_weights_determine_structure(&self, other: &Self)
        requires
            self@ == other@,
        ensures
            self.structure() == other.structure(),
    {
        let a = values(self.subtotals@);
        let b = values(other.subtotals@);
        lemma_weights_determine_subtotals(a, b);
        assert(self.subtotals@.len() == a.len());
        assert(other.subtotals@.len() == b.len());
        assert forall|i: int| 0 <= i < self.subtotals@.len() implies self.subtotals@[i]
            == other.subtotals@[i] by {
            assert(a[i] == self.subtotals@[i].value());
            assert(b[i] == other.subtotals@[i].value());
            W::lemma_value_injective(self.subtotals@[i], other.subtotals@[i]);
        }
        assert(self.subtotals@ =~= other.subtotals@);
    }

    /// Creates a new tree from a slice of weights.
    ///
    /// A negative weight is refused as `InvalidWeight`; weights whose sum is not
    /// representable are refused as `Overflow`.
    pub fn new(weights: &[W]) -> (result: Result<Self, WeightedError>)
        ensures
            match result {
                Ok(tree) => tree.wf() && tree@ == values(weights@),
                Err(e) => e == WeightedError::InvalidWeight || e == WeightedError::Overflow,
            },
            result == Err::<Self, WeightedError>(WeightedError::InvalidWeight) <==> !all_nonnegative(
                values(weights@),
            ),
            result == Err::<Self, WeightedError>(WeightedError::Overflow) <==> all_nonnegative(
                values(weights@),
            ) && sum(values(weights@)) > W::max_value(),
    {
        let ghost input = values(weights@);
        let n = weights.len();
        let zero = W::zero();
        let mut subtotals: Vec<W> = Vec::new();
        let mut k: usize = 0;
        while k < n
            invariant
                k <= n,
                n == weights@.len(),
                input == values(weights@),
                zero.value() == 0,
                subtotals@.len() == k,
                forall|j: int| 0 <= j < k ==> subtotals@[j] == weights@[j],
                forall|j: int| 0 <= j < k ==> input[j] >= 0,
            decreases n - k,
        {
            let weight = weights[k];
            if weight.less_than(&zero) {
                assert(input[k as int] < 0);
                return Err(WeightedError::InvalidWeight);
            }
            subtotals.push(weight);
            k += 1;
        }
        proof {
            assert(values(subtotals@) =~= input);
            lemma_build_start(input);
        }
        let mut i: usize = n;
        while i > 1
            invariant
                i <= n,
                n == subtotals@.len(),
                n > 0 ==> i >= 1,
                input == values(weights@),
                all_nonnegative(input),
                built_from(values(subtotals@), input, i as int),
            decreases i,
        {
            let ghost before = values(subtotals@);
            proof {
                lemma_build_step(before, input, i as int);
            }
            i -= 1;
            let weight = subtotals[i];
            let parent = (i - 1) / 2;
            match subtotals[parent].checked_add(&weight) {
                Some(added) => {
                    subtotals.set(parent, added);
                    assert(values(subtotals@) =~= before.update(
                        parent as int,
                        before[parent as int] + before[i as int],
                    ));
                },
                None => {
                    proof {
                        assert(before[parent as int] >= 0);
                        assert(before[i as int] >= 0);
                        W::zero_is_representable();
                    }
                    return Err(WeightedError::Overflow);
                },
            }
        }
        let tree = WeightedTreeIndex { subtotals };
        proof {
            lemma_build_done(values(tree.subtotals@), input, i as int);
            if n > 0 {
                tree.subtotals@[0].lemma_bounds();
            } else {
                W::zero_is_representable();
            }
        }
        Ok(tree)
    }

    /// Returns `true` if the tree contains no weights.
    pub fn is_empty(&self) -> (empty: bool)
        ensures
            empty == (self@.len() == 0),
    {
        self.subtotals.is_empty()
    }

    /// Returns the number of weights.
    pub fn len(&self) -> (n: usize)
        ensures
            n == self@.len(),
    {
        self.subtotals.len()
    }

    /// Returns `true` if we can sample.
    ///
    /// This is the case if the total weight of the tree is greater than zero.
    pub fn can_sample(&self) -> (possible: bool)
        requires
            self.wf(),
        ensures
            possible == (self.total() > 0),
    {
        proof {
            self.lemma_wf();
            if self.subtotals@.len() > 0 {
                lemma_root_is_sum(values(self.subtotals@));
            }
        }
        if self.subtotals.len() > 0 {
            let zero = W::zero();
            zero.less_than(&self.subtotals[0])
        } else {
            false
        }
    }

    /// Gets the weight at an index.
    pub fn get(&self, index: usize) -> (weight: W)
        requires
            self.wf(),
            index < self@.len(),
        ensures
            weight.value() == self@[index as int],
    {
        let left = self.child_subtotal(index, 1);
        let right = self.child_subtotal(index, 2);
        proof {
            let s = values(self.subtotals@);
            lemma_all_covered(s);
            assert(own_weight(s, index as int) >= 0);
            if 2 * index + 1 < s.len() {
                assert(s[2 * index + 1] >= 0);
            }
            if 2 * index + 2 < s.len() {
                assert(s[2 * index + 2] >= 0);
            }
            assert(s[index as int] >= 0);
            self.subtotals@[index as int].lemma_bounds();
            W::zero_is_representable();
        }
        let rest = self.subtotals[index].minus(&left);
        rest.minus(&right)
    }

    /// Removes the last weight and returns it, or `None` if the tree is empty.
    pub fn pop(&mut self) -> (removed: Option<W>)
        requires
            old(self).wf(),
        ensures
            final(self).wf(),
            match removed {
                Some(weight) => old(self)@.len() > 0 && weight.value() == old(self)@.last()
                    && final(self)@ == old(self)@.drop_last(),
                None => old(self)@.len() == 0 && *final(self) == *old(self),
            },
    {
        let ghost base = values(self.subtotals@);
        if self.subtotals.len() == 0 {
            return None;
        }
        match self.subtotals.pop() {
            Some(weight) => {
                let index = self.subtotals.len();
                proof {
                    assert(values(self.subtotals@) =~= base.drop_last());
                    lemma_carry_after_pop(base);
                    assert(base.last() == weight.value());
                    lemma_subtotal_nonnegative(base, index as int);
                }
                self.subtract_from_ancestors(index, &weight, Ghost(base));
                proof {
                    assert(self@ == old(self)@.drop_last());
                    assert forall|j: int| 0 <= j < self@.len() implies own_weight(
                        values(self.subtotals@),
                        j,
                    ) >= 0 by {
                        assert(self@[j] == own_weight(values(self.subtotals@), j));
                        assert(old(self)@[j] == own_weight(base, j));
                    }
                }
                Some(weight)
            },
            None => None,
        }
    }

    /// Appends a new weight at the end.
    ///
    /// A negative weight is refused as `InvalidWeight`; a weight that would make the
    /// total unrepresentable is refused as `Overflow`. A refusal leaves the tree as it was.
    pub fn push(&mut self, weight: W) -> (result: Result<(), WeightedError>)
        requires
            old(self).wf(),
        ensures
            final(self).wf(),
            match result {
                Ok(()) => final(self)@ == old(self)@.push(weight.value()),
                Err(_) => *final(self) == *old(self),
            },
            result == Err::<(), WeightedError>(WeightedError::InvalidWeight) <==> weight.value() < 0,
            result == Err::<(), WeightedError>(WeightedError::Overflow) <==> weight.value() >= 0
                && old(self).total() + weight.value() > W::max_value(),
            result is Ok <==> weight.value() >= 0 && old(self).total() + weight.value()
                <= W::max_value(),
    {
        let ghost base = values(self.subtotals@);
        let zero = W::zero();
        proof {
            self.lemma_wf();
            weight.lemma_bounds();
            W::zero_is_representable();
            lemma_sum_empty(self@);
        }
        if weight.less_than(&zero) {
            return Err(WeightedError::InvalidWeight);
        }
        if self.subtotals.len() > 0 {
            proof {
                lemma_root_is_sum(base);
            }
            if self.subtotals[0].checked_add(&weight).is_none() {
                return Err(WeightedError::Overflow);
            }
        }
        let index = self.subtotals.len();
        self.subtotals.push(weight);
        proof {
            assert(values(self.subtotals@) =~= base.push(weight.value()));
            lemma_carry_after_push(base, weight.value());
        }
        self.add_to_ancestors(index, &weight, Ghost(base));
        proof {
            assert(self@ == old(self)@.push(weight.value()));
            assert forall|j: int| 0 <= j < self@.len() implies own_weight(
                values(self.subtotals@),
                j,
            ) >= 0 by {
                assert(self@[j] == own_weight(values(self.subtotals@), j));
                if j < base.len() {
                    assert(old(self)@[j] == own_weight(base, j));
                }
            }
        }
        Ok(())
    }

    /// Updates the weight at an index.
    ///
    /// A negative weight is refused as `InvalidWeight`; a weight that would make the
    /// total unrepresentable is refused as `Overflow`. A refusal leaves the tree as it was.
    pub fn update(&mut self, index: usize, weight: W) -> (result: Result<(), WeightedError>)
        requires
            old(self).wf(),
            index < old(self)@.len(),
        ensures
            final(self).wf(),
            match result {
                Ok(()) => final(self)@ == old(self)@.update(index as int, weight.value()),
                Err(_) => *final(self) == *old(self),
            },
            result == Err::<(), WeightedError>(WeightedError::InvalidWeight) <==> weight.value() < 0,
            result == Err::<(), WeightedError>(WeightedError::Overflow) <==> weight.value() >= 0
                && old(self).total() - old(self)@[index as int] + weight.value() > W::max_value(),
            result is Ok <==> weight.value() >= 0 && old(self).total() - old(self)@[index as int]
                + weight.value() <= W::max_value(),
    {
        let ghost base = values(self.subtotals@);
        let zero = W::zero();
        proof {
            self.lemma_wf();
            weight.lemma_bounds();
            W::zero_is_representable();
            lemma_root_is_sum(base);
            lemma_all_covered(base);
            assert(own_weight(base, index as int) >= 0);
            assert(self@[index as int] == own_weight(base, index as int));
            assert(base[index as int] >= 0);
            if 2 * index + 1 < base.len() {
                assert(base[2 * index + 1] >= 0);
            }
            if 2 * index + 2 < base.len() {
                assert(base[2 * index + 2] >= 0);
            }
        }
        if weight.less_than(&zero) {
            return Err(WeightedError::InvalidWeight);
        }
        let current = self.get(index);
        if current.less_than(&weight) {
            let difference = weight.minus(&current);
            if self.subtotals[0].checked_add(&difference).is_none() {
                return Err(WeightedError::Overflow);
            }
            let raised = self.subtotals[index].checked_add(&difference);
            assert(raised is Some);
            self.subtotals.set(index, raised.unwrap());
            proof {
                assert(values(self.subtotals@) =~= base.update(
                    index as int,
                    base[index as int] + difference.value(),
                ));
                lemma_carry_after_update(base, index as int, difference.value());
            }
            self.add_to_ancestors(index, &difference, Ghost(base));
        } else if weight.less_than(&current) {
            let difference = current.minus(&weight);
            let lowered = self.subtotals[index].minus(&difference);
            self.subtotals.set(index, lowered);
            proof {
                assert(values(self.subtotals@) =~= base.update(
                    index as int,
                    base[index as int] - difference.value(),
                ));
                lemma_carry_after_update(base, index as int, -difference.value());
            }
            self.subtract_from_ancestors(index, &difference, Ghost(base));
        } else {
            proof {
                assert(old(self)@.update(index as int, weight.value()) =~= old(self)@);
            }
            return Ok(());
        }
        proof {
            assert(self@ == old(self)@.update(index as int, weight.value()));
            assert forall|j: int| 0 <= j < self@.len() implies own_weight(
                values(self.subtotals@),
                j,
            ) >= 0 by {
                assert(self@[j] == own_weight(values(self.subtotals@), j));
                assert(old(self)@[j] == own_weight(base, j));
            }
        }
        Ok(())
    }

    /// Finds the index on whose share of the total weight `target` falls.
    ///
    /// The weights are laid end to end in the order in which the tree is walked: the
    /// left subtree of a node, then its right subtree, then the node itself. The index
    /// found is the one whose stretch contains `target`; its weight is therefore not zero.
    pub fn locate(&self, target: W) -> (index: usize)
        requires
            self.wf(),
            0 <= target.value() < self.total(),
        ensures
            index < self@.len(),
            weight_before(self@, index as int) <= target.value() < weight_before(
                self@,
                index as int,
            ) + self@[index as int],
            self@[index as int] > 0,
            index == index_of(self@, target.value()),
    {
        let ghost s = values(self.subtotals@);
        let ghost aim = target.value();
        proof {
            lemma_sum_empty(self@);
            lemma_root_is_sum(s);
            lemma_all_covered(s);
        }
        let n = self.subtotals.len();
        let mut target = target;
        let mut index: usize = 0;
        loop
            invariant_except_break
                0 <= target.value() < s[index as int],
                aim == weight_passed(self@, index as int) + target.value(),
            invariant
                s == values(self.subtotals@),
                self@ == weights_of(s),
                is_tree(s),
                n == s.len(),
                index < n,
                forall|j: int| 0 <= j < s.len() ==> 0 <= #[trigger] s[j],
            ensures
                weight_before(self@, index as int) <= aim < weight_before(self@, index as int)
                    + self@[index as int],
            decreases n - index,
        {
            proof {
                lemma_subtotal_is_subtree(s, 2 * index + 1);
                lemma_subtotal_is_subtree(s, 2 * index + 2);
                assert(own_weight(s, index as int) >= 0);
                assert(self@[index as int] == own_weight(s, index as int));
                target.lemma_bounds();
                W::zero_is_representable();
            }
            let left = self.child_subtotal(index, 1);
            if target.less_than(&left) {
                index = 2 * index + 1;
            } else {
                target = target.minus(&left);
                let right = self.child_subtotal(index, 2);
                if target.less_than(&right) {
                    index = 2 * index + 2;
                } else {
                    target = target.minus(&right);
                    break ;
                }
            }
        }
        proof {
            self.lemma_wf();
            lemma_index_of(self@, aim);
        }
        index
    }

    /// Samples an index with probability proportional to its weight.
    ///
    /// One 64-bit draw is taken from `rng` and mapped evenly onto the total weight; the
    /// index is the one that [`Self::locate`] finds for it. No draw is taken where the
    /// tree cannot be sampled: it is `NoItem` for an empty tree and `AllWeightsZero` for
    /// one whose weights are all zero.
    pub fn sample<R: Rng>(&self, rng: &mut R) -> (result: Result<usize, WeightedError>)
        requires
            self.wf(),
        ensures
            result == Err::<usize, WeightedError>(WeightedError::NoItem) <==> self@.len() == 0,
            result == Err::<usize, WeightedError>(WeightedError::AllWeightsZero) <==> self@.len()
                > 0 && self.total() == 0,
            result is Ok <==> self.total() > 0,
            result is Err ==> (*final(rng)).state() == (*old(rng)).state(),
            result matches Ok(index) ==> {
                let (draw, after) = R::spec_next_u64((*old(rng)).state());
                let target = scaled(draw, self.total());
                &&& (*final(rng)).state() == after
                &&& index < self@.len()
                &&& index == index_of(self@, target)
                &&& self@[index as int] > 0
                &&& weight_before(self@, index as int) <= target < weight_before(
                    self@,
                    index as int,
                ) + self@[index as int]
            },
    {
        proof {
            self.lemma_wf();
            lemma_sum_empty(self@);
        }
        if self.subtotals.is_empty() {
            return Err(WeightedError::NoItem);
        }
        proof {
            lemma_root_is_sum(values(self.subtotals@));
        }
        let total_weight = self.subtotals[0];
        let zero = W::zero();
        if !zero.less_than(&total_weight) {
            return Err(WeightedError::AllWeightsZero);
        }
        let draw = rng.next_u64();
        let target = W::scale(draw, &total_weight);
        proof {
            lemma_scaled_in_range(draw, total_weight.value());
        }
        Ok(self.locate(target))
    }

    /// The subtotal stored at `index`, or zero where the tree has no such node.
    fn subtotal(&self, index: usize) -> (subtotal: W)
        ensures
            subtotal.value() == subtotal_at(values(self.subtotals@), index as int),
    {
        if index < self.subtotals.len() {
            self.subtotals[index]
        } else {
            W::zero()
        }
    }

    /// The subtotal of a child of `index`: of the left one for `side` 1, of the right
    /// one for `side` 2; zero where the tree has no such node.
    fn child_subtotal(&self, index: usize, side: usize) -> (subtotal: W)
        requires
            side == 1 || side == 2,
        ensures
            subtotal.value() == subtotal_at(values(self.subtotals@), 2 * index + side),
    {
        let n = self.subtotals.len();
        if index < n && side < n - index && index < n - index - side {
            self.subtotal(2 * index + side)
        } else {
            W::zero()
        }
    }

    /// Adds `difference` to the subtotal of every ancestor of `index`.
    ///
    /// `base` is a tree whose root has room for `difference` and with which the
    /// subtotals below `index` still agree.
    fn add_to_ancestors(&mut self, index: usize, difference: &W, Ghost(base): Ghost<Seq<int>>)
        requires
            is_tree(base),
            index <= base.len(),
            difference.value() >= 0,
            index > 0 ==> base[0] + difference.value() <= W::max_value(),
            forall|j: int| 0 <= j < index ==> values(old(self).subtotals@)[j] == base[j],
            index < old(self).subtotals@.len() || index == 0,
        ensures
            final(self)@ == carry_target(
                values(old(self).subtotals@),
                index as int,
                difference.value(),
            ),
    {
        let ghost start = values(self.subtotals@);
        let ghost delta = difference.value();
        let ghost target = carry_target(start, index as int, delta);
        let mut index = index;
        proof {
            lemma_carry_start(start, index as int, delta);
        }
        while index != 0
            invariant
                is_tree(base),
                index <= base.len(),
                delta == difference.value(),
                delta >= 0,
                index > 0 ==> base[0] + delta <= W::max_value(),
                index < self.subtotals@.len() || index == 0,
                forall|j: int| 0 <= j < index ==> values(self.subtotals@)[j] == base[j],
                carried_to(values(self.subtotals@), target, index as int, delta),
            decreases index,
        {
            let ghost before = values(self.subtotals@);
            proof {
                lemma_carry_step(before, target, index as int, delta);
            }
            index = (index - 1) / 2;
            proof {
                lemma_root_covers(base, index as int);
                assert(before[index as int] == base[index as int]);
                W::zero_is_representable();
            }
            let raised = self.subtotals[index].checked_add(difference);
            assert(raised is Some);
            self.subtotals.set(index, raised.unwrap());
            assert(values(self.subtotals@) =~= before.update(
                index as int,
                before[index as int] + delta,
            ));
        }
        proof {
            lemma_carry_done(values(self.subtotals@), target, delta);
        }
    }

    /// Subtracts `difference` from the subtotal of every ancestor of `index`.
    ///
    /// `base` is a tree in which the subtotal of `index` is at least `difference` and
    /// with which the subtotals below `index` still agree.
    fn subtract_from_ancestors(
        &mut self,
        index: usize,
        difference: &W,
        Ghost(base): Ghost<Seq<int>>,
    )
        requires
            is_tree(base),
            index < base.len(),
            0 <= difference.value() <= base[index as int],
            forall|j: int| 0 <= j < index ==> values(old(self).subtotals@)[j] == base[j],
            index <= old(self).subtotals@.len(),
        ensures
            final(self)@ == carry_target(
                values(old(self).subtotals@),
                index as int,
                -difference.value(),
            ),
    {
        let ghost start = values(self.subtotals@);
        let ghost delta = difference.value();
        let ghost target = carry_target(start, index as int, -delta);
        let mut index = index;
        proof {
            lemma_carry_start(start, index as int, -delta);
        }
        while index != 0
            invariant
                is_tree(base),
                index < base.len(),
                delta == difference.value(),
                0 <= delta <= base[index as int],
                index <= self.subtotals@.len(),
                forall|j: int| 0 <= j < index ==> values(self.subtotals@)[j] == base[j],
                carried_to(values(self.subtotals@), target, index as int, -delta),
            decreases index,
        {
            let ghost before = values(self.subtotals@);
            proof {
                lemma_carry_step(before, target, index as int, -delta);
                lemma_parent_covers(base, index as int);
            }
            index = (index - 1) / 2;
            proof {
                assert(before[index as int] == base[index as int]);
                self.subtotals@[index as int].lemma_bounds();
                W::zero_is_representable();
            }
            let lowered = self.subtotals[index].minus(difference);
            self.subtotals.set(index, lowered);
            assert(values(self.subtotals@) =~= before.update(
                index as int,
                before[index as int] + (-delta),
            ));
        }
        proof {
            lemma_carry_done(values(self.subtotals@), target, -delta);
        }
    }
}

impl<W: Weight> Default for WeightedTreeIndex<W> {
    /// The tree of no weights.
    fn default() -> (tree: Self)
        ensures
            tree.wf(),
            tree@.len() == 0,
    {
        WeightedTreeIndex { subtotals: Vec::new() }
    }
}

/// After construction, the weight read at an index is the weight given for it.
///
/// `tree` stands for what [`WeightedTreeIndex::new`] gives for `weights`, `read` for
/// what [`WeightedTreeIndex::get`] then gives for `index`.
pub proof fn lemma_get_after_new<W: Weight>(
    weights: Seq<W>,
    tree: WeightedTreeIndex<W>,
    index: int,
    read: W,
)
    requires
        0 <= index < weights.len(),
        tree@ == values(weights),
        read.value() == tree@[index],
    ensures
        read == weights[index],
{
    W::lemma_value_injective(read, weights[index]);
}

/// Pushing a weight and popping again gives that weight back and leaves the tree
/// exactly as it was, subtotal by subtotal.
///
/// `pushed` stands for the tree after [`WeightedTreeIndex::push`] of `weight`, `popped`
/// and `removed` for the tree after [`WeightedTreeIndex::pop`] and what it returned.
pub proof fn lemma_push_then_pop<W: Weight>(
    before: WeightedTreeIndex<W>,
    weight: W,
    pushed: WeightedTreeIndex<W>,
    popped: WeightedTreeIndex<W>,
    removed: W,
)
    requires
        pushed@ == before@.push(weight.value()),
        removed.value() == pushed@.last(),
        popped@ == pushed@.drop_last(),
    ensures
        removed == weight,
        popped@ == before@,
        popped.structure() == before.structure(),
{
    W::lemma_value_injective(removed, weight);
    assert(before@.push(weight.value()).drop_last() =~= before@);
    popped.lemma_weights_determine_structure(&before);
}

/// After an update, the weight read at the updated index is the new weight, and every
/// other weight is as it was.
///
/// `updated` stands for the tree after [`WeightedTreeIndex::update`] of `index` to
/// `weight`, `read` for what [`WeightedTreeIndex::get`] then gives for `index`.
pub proof fn lemma_update_then_get<W: Weight>(
    before: WeightedTreeIndex<W>,
    index: int,
    weight: W,
    updated: WeightedTreeIndex<W>,
    read: W,
)
    requires
        0 <= index < before@.len(),
        updated@ == before@.update(index, weight.value()),
        read.value() == updated@[index],
    ensures
        read == weight,
        forall|other: int| 0 <= other < before@.len() && other != index ==> updated@[other]
            == before@[other],
{
    W::lemma_value_injective(read, weight);
}

/// A tree can be sampled exactly when one of its weights is not zero.
pub proof fn lemma_can_sample<W: Weight>(tree: WeightedTreeIndex<W>)
    requires
        tree.wf(),
    ensures
        tree.total() > 0 <==> exists|i: int| 0 <= i < tree@.len() && tree@[i] > 0,
{
    tree.lemma_wf();
    lemma_sum_zero(tree@);
}

/// Of the targets below the total, as many are led to an index as its weight says. A
/// target taken evenly from them therefore gives each index in proportion to its
/// weight, and an index of weight zero never.
pub proof fn lemma_sample_counts<W: Weight>(tree: WeightedTreeIndex<W>, index: int)
    requires
        tree.wf(),
        0 <= index < tree@.len(),
    ensures
        targets_of(tree@, index).finite(),
        targets_of(tree@, index).len() == tree@[index],
{
    tree.lemma_wf();
    lemma_targets_counted(tree@, index);
}

} // verus!
