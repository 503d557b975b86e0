//! The mathematics of an implicit binary tree of subtotals.
//!
//! A tree over `n` weights is the array `s[0..n)` in which `s[i]` is the weight of
//! node `i` plus the subtotals of its children `2i+1` and `2i+2`, where a child
//! outside the array counts as zero.

use vstd::prelude::*;

verus! {

/// The entry of `s` at `i`, or zero outside the array.
pub open spec fn subtotal_at(s: Seq<int>, i: int) -> int {
    if 0 <= i < s.len() {
        s[i]
    } else {
        0
    }
}

/// The weight of node `i` itself: its subtotal less those of its two children.
pub open spec fn own_weight(s: Seq<int>, i: int) -> int {
    s[i] - subtotal_at(s, 2 * i + 1) - subtotal_at(s, 2 * i + 2)
}

/// The weights that the array of subtotals `s` stands for.
pub open spec fn weights_of(s: Seq<int>) -> Seq<int> {
    Seq::new(s.len(), |i: int| own_weight(s, i))
}

/// Whether `s` is the array of subtotals of a tree of nonnegative weights.
pub open spec fn is_tree(s: Seq<int>) -> bool {
    forall|i: int| 0 <= i < s.len() ==> own_weight(s, i) >= 0
}

/// The sum of the first `k` entries of `w`.
pub open spec fn prefix_sum(w: Seq<int>, k: int) -> int
    decreases k,
{
    if k <= 0 {
        0
    } else {
        prefix_sum(w, k - 1) + w[k - 1]
    }
}

/// The sum of all entries of `w`.
pub open spec fn sum(w: Seq<int>) -> int {
    prefix_sum(w, w.len() as int)
}

/// Whether no entry of `w` is negative.
pub open spec fn all_nonnegative(w: Seq<int>) -> bool {
    forall|i: int| 0 <= i < w.len() ==> w[i] >= 0
}

/// The weight of the whole subtree rooted at `i`.
pub open spec fn subtree_weight(w: Seq<int>, i: int) -> int
    decreases w.len() - i,
{
    if 0 <= i < w.len() {
        w[i] + (if 2 * i + 1 < w.len() {
            subtree_weight(w, 2 * i + 1)
        } else {
            0
        }) + (if 2 * i + 2 < w.len() {
            subtree_weight(w, 2 * i + 2)
        } else {
            0
        })
    } else {
        0
    }
}

/// The weight of the subtrees passed over on the way from the root down to `i`:
/// for every step of the way that goes to a right child, the left sibling's subtree.
pub open spec fn weight_passed(w: Seq<int>, i: int) -> int
    decreases i,
{
    if i <= 0 {
        0
    } else {
        let parent = (i - 1) / 2;
        weight_passed(w, parent) + if i == 2 * parent + 2 {
            subtree_weight(w, 2 * parent + 1)
        } else {
            0
        }
    }
}

/// The weight that comes before node `i` when the tree is walked left subtree first,
/// then right subtree, then the node itself.
pub open spec fn weight_before(w: Seq<int>, i: int) -> int {
    weight_passed(w, i) + subtree_weight(w, 2 * i + 1) + subtree_weight(w, 2 * i + 2)
}

/// The sum of no entries is zero.
pub proof fn lemma_sum_empty(w: Seq<int>)
    ensures
        w.len() == 0 ==> sum(w) == 0,
{
}

/// Sums that agree on their first `k` entries agree.
pub proof fn lemma_prefix_sum_agrees(a: Seq<int>, b: Seq<int>, k: int)
    requires
        forall|i: int| 0 <= i < k ==> a[i] == b[i],
    ensures
        prefix_sum(a, k) == prefix_sum(b, k),
    decreases k,
{
    if k > 0 {
        lemma_prefix_sum_agrees(a, b, k - 1);
    }
}

/// Changing one of the first `k` entries changes their sum by as much.
pub proof fn lemma_prefix_sum_update(w: Seq<int>, k: int, at: int, value: int)
    requires
        0 <= at < k <= w.len(),
    ensures
        prefix_sum(w.update(at, value), k) == prefix_sum(w, k) - w[at] + value,
    decreases k,
{
    if at == k - 1 {
        lemma_prefix_sum_agrees(w.update(at, value), w, k - 1);
    } else {
        lemma_prefix_sum_update(w, k - 1, at, value);
    }
}

/// The sum of nonnegative entries is at least any one of them, and at least any two
/// of them that stand at different places.
pub proof fn lemma_prefix_sum_bounds(w: Seq<int>, k: int)
    requires
        0 <= k <= w.len(),
        forall|i: int| 0 <= i < k ==> w[i] >= 0,
    ensures
        prefix_sum(w, k) >= 0,
        forall|i: int| 0 <= i < k ==> prefix_sum(w, k) >= w[i],
        forall|i: int, j: int| 0 <= i < j < k ==> prefix_sum(w, k) >= w[i] + w[j],
    decreases k,
{
    if k > 0 {
        lemma_prefix_sum_bounds(w, k - 1);
    }
}

/// A sum of nonnegative entries is zero exactly when every entry is zero.
pub proof fn lemma_sum_zero(w: Seq<int>)
    requires
        all_nonnegative(w),
    ensures
        sum(w) == 0 <==> (forall|i: int| 0 <= i < w.len() ==> w[i] == 0),
{
    lemma_prefix_sum_bounds(w, w.len() as int);
    if forall|i: int| 0 <= i < w.len() ==> w[i] == 0 {
        lemma_prefix_sum_zeros_upto(w, w.len() as int);
    }
}

/// A sum of zeros is zero.
proof fn lemma_prefix_sum_zeros_upto(z: Seq<int>, j: int)
    requires
        0 <= j <= z.len(),
        forall|i: int| 0 <= i < z.len() ==> z[i] == 0,
    ensures
        prefix_sum(z, j) == 0,
    decreases j,
{
    if j > 0 {
        lemma_prefix_sum_zeros_upto(z, j - 1);
    }
}

/// In a tree no subtotal is negative.
pub proof fn lemma_subtotal_nonnegative(s: Seq<int>, i: int)
    requires
        is_tree(s),
        0 <= i < s.len(),
    ensures
        s[i] >= 0,
    decreases s.len() - i,
{
    if 2 * i + 1 < s.len() {
        lemma_subtotal_nonnegative(s, 2 * i + 1);
    }
    if 2 * i + 2 < s.len() {
        lemma_subtotal_nonnegative(s, 2 * i + 2);
    }
    assert(own_weight(s, i) >= 0);
}

/// In a tree a node's subtotal is at most its parent's.
pub proof fn lemma_parent_covers(s: Seq<int>, i: int)
    requires
        is_tree(s),
        0 < i < s.len(),
    ensures
        0 <= s[i] <= s[(i - 1) / 2],
{
    let parent = (i - 1) / 2;
    lemma_subtotal_nonnegative(s, i);
    if 2 * parent + 1 < s.len() {
        lemma_subtotal_nonnegative(s, 2 * parent + 1);
    }
    if 2 * parent + 2 < s.len() {
        lemma_subtotal_nonnegative(s, 2 * parent + 2);
    }
    assert(own_weight(s, parent) >= 0);
}

/// In a tree every subtotal lies between zero and the root's.
pub proof fn lemma_root_covers(s: Seq<int>, i: int)
    requires
        is_tree(s),
        0 <= i < s.len(),
    ensures
        0 <= s[i] <= s[0],
    decreases i,
{
    lemma_subtotal_nonnegative(s, i);
    if i > 0 {
        lemma_parent_covers(s, i);
        lemma_root_covers(s, (i - 1) / 2);
    }
}

/// Every subtotal of a tree lies between zero and the root's.
pub proof fn lemma_all_covered(s: Seq<int>)
    requires
        is_tree(s),
    ensures
        forall|i: int| 0 <= i < s.len() ==> 0 <= #[trigger] s[i] <= s[0],
{
    assert forall|i: int| 0 <= i < s.len() implies 0 <= #[trigger] s[i] <= s[0] by {
        lemma_root_covers(s, i);
    }
}

/// The weights of the first `k` nodes add up to their subtotals less the subtotals
/// of their children, which are the nodes `1 ..= 2k`.
proof fn lemma_telescope(s: Seq<int>, k: int)
    requires
        0 <= k <= s.len(),
        s.len() > 0,
    ensures
        prefix_sum(weights_of(s), k) == prefix_sum(s, k) - prefix_sum(
            s,
            if 2 * k + 1 <= s.len() {
                2 * k + 1
            } else {
                s.len() as int
            },
        ) + s[0],
    decreases k,
{
    let n = s.len() as int;
    if k == 0 {
        assert(prefix_sum(s, 1) == prefix_sum(s, 0) + s[0]);
    } else {
        lemma_telescope(s, k - 1);
        let j = k - 1;
        assert(weights_of(s)[j] == own_weight(s, j));
        if 2 * j + 2 < n {
            assert(prefix_sum(s, 2 * j + 3) == prefix_sum(s, 2 * j + 2) + s[2 * j + 2]);
            assert(prefix_sum(s, 2 * j + 2) == prefix_sum(s, 2 * j + 1) + s[2 * j + 1]);
        } else if 2 * j + 1 < n {
            assert(prefix_sum(s, 2 * j + 2) == prefix_sum(s, 2 * j + 1) + s[2 * j + 1]);
        }
    }
}

/// The root's subtotal is the sum of all weights.
pub proof fn lemma_root_is_sum(s: Seq<int>)
    requires
        s.len() > 0,
    ensures
        s[0] == sum(weights_of(s)),
{
    lemma_telescope(s, s.len() as int);
}

/// A node's subtotal is the weight of the subtree below and including it.
pub proof fn lemma_subtotal_is_subtree(s: Seq<int>, i: int)
    requires
        0 <= i,
    ensures
        subtotal_at(s, i) == subtree_weight(weights_of(s), i),
    decreases s.len() - i,
{
    if 2 * i + 1 < s.len() {
        lemma_subtotal_is_subtree(s, 2 * i + 1);
    }
    if 2 * i + 2 < s.len() {
        lemma_subtotal_is_subtree(s, 2 * i + 2);
    }
}

/// Two arrays of subtotals that stand for the same weights are the same array.
pub proof fn lemma_weights_determine_subtotals(a: Seq<int>, b: Seq<int>)
    requires
        weights_of(a) == weights_of(b),
    ensures
        a == b,
{
    assert(a.len() == weights_of(a).len());
    assert(b.len() == weights_of(b).len());
    assert forall|i: int| 0 <= i < a.len() implies a[i] == b[i] by {
        lemma_subtotal_is_subtree(a, i);
        lemma_subtotal_is_subtree(b, i);
    }
    assert(a =~= b);
}

/// While a tree is built from the last node up: whether node `j` already holds its
/// own weight plus the subtotals of those of its children that stand at `from` or later.
pub open spec fn built_at(s: Seq<int>, input: Seq<int>, from: int, j: int) -> bool {
    s[j] == input[j] + (if from <= 2 * j + 1 < s.len() {
        s[2 * j + 1]
    } else {
        0
    }) + (if from <= 2 * j + 2 < s.len() {
        s[2 * j + 2]
    } else {
        0
    })
}

/// While a tree is built from the last node up: the state in which the nodes at `from`
/// and later have been added into their parents.
pub open spec fn built_from(s: Seq<int>, input: Seq<int>, from: int) -> bool {
    &&& s.len() == input.len()
    &&& forall|j: int| 0 <= j < s.len() ==> #[trigger] built_at(s, input, from, j)
    &&& forall|j: int| 0 <= j < s.len() ==> #[trigger] s[j] >= 0
    &&& prefix_sum(s, from) == sum(input)
}

/// The weights as given are a tree of which no node has been added into its parent.
pub proof fn lemma_build_start(input: Seq<int>)
    requires
        all_nonnegative(input),
    ensures
        built_from(input, input, input.len() as int),
{
    assert forall|j: int| 0 <= j < input.len() implies #[trigger] built_at(
        input,
        input,
        input.len() as int,
        j,
    ) by {}
}

/// Adding node `from - 1` into its parent takes the build one node further, and the sum
/// of the two subtotals is no more than the sum of all weights.
pub proof fn lemma_build_step(before: Seq<int>, input: Seq<int>, from: int)
    requires
        built_from(before, input, from),
        2 <= from <= before.len(),
    ensures
        before[(from - 2) / 2] + before[from - 1] <= sum(input),
        built_from(
            before.update((from - 2) / 2, before[(from - 2) / 2] + before[from - 1]),
            input,
            from - 1,
        ),
{
    let i = from - 1;
    let parent = (i - 1) / 2;
    let after = before.update(parent, before[parent] + before[i]);
    assert(prefix_sum(before, from) == prefix_sum(before, i) + before[i]);
    lemma_prefix_sum_bounds(before, i);
    lemma_prefix_sum_update(before, i, parent, before[parent] + before[i]);
    assert forall|j: int| 0 <= j < after.len() implies #[trigger] built_at(after, input, i, j) by {
        assert(built_at(before, input, from, j));
        if j == parent {
            assert(2 * j + 1 == i || 2 * j + 2 == i);
        } else {
            assert(2 * j + 1 != i && 2 * j + 2 != i);
        }
    }
    assert forall|j: int| 0 <= j < after.len() implies #[trigger] after[j] >= 0 by {
        assert(before[j] >= 0);
        assert(before[i] >= 0);
    }
}

/// When every node but the root has been added into its parent, the array holds the
/// subtotals of the weights as given, and the root holds their sum.
pub proof fn lemma_build_done(s: Seq<int>, input: Seq<int>, from: int)
    requires
        built_from(s, input, from),
        from <= 1,
        s.len() > 0 ==> from == 1,
        all_nonnegative(input),
    ensures
        weights_of(s) == input,
        is_tree(s),
        s.len() > 0 ==> s[0] == sum(input),
{
    assert forall|j: int| 0 <= j < s.len() implies own_weight(s, j) == input[j] by {
        assert(built_at(s, input, from, j));
    }
    assert(weights_of(s) =~= input);
    if s.len() > 0 {
        assert(prefix_sum(s, 1) == prefix_sum(s, 0) + s[0]);
    }
}

/// While a change of weight is carried up the tree: the state in which every node has
/// the weight `target` gives it, but for the parent of `at`, which is short of it by
/// `delta` because the subtotal of `at` has changed already and its own has not. With
/// `at` the root nothing is left to carry.
pub open spec fn carried_to(s: Seq<int>, target: Seq<int>, at: int, delta: int) -> bool {
    &&& s.len() == target.len()
    &&& forall|j: int|
        0 <= j < s.len() ==> #[trigger] own_weight(s, j) == target[j] - if at > 0 && j == (at - 1)
            / 2 {
            delta
        } else {
            0
        }
}

/// The weights that a carry started at `at` will have restored once it reaches the root.
pub open spec fn carry_target(s: Seq<int>, at: int, delta: int) -> Seq<int> {
    Seq::new(
        s.len(),
        |j: int|
            own_weight(s, j) + if at > 0 && j == (at - 1) / 2 {
                delta
            } else {
                0
            },
    )
}

/// Any array is in the middle of the carry that restores its carry target.
pub proof fn lemma_carry_start(s: Seq<int>, at: int, delta: int)
    ensures
        carried_to(s, carry_target(s, at, delta), at, delta),
{
}

/// One step of carrying a change of weight up the tree: adding `delta` to the subtotal
/// of the parent of `at` mends that parent and moves the fault one level up.
pub proof fn lemma_carry_step(before: Seq<int>, target: Seq<int>, at: int, delta: int)
    requires
        0 < at,
        (at - 1) / 2 < before.len(),
        carried_to(before, target, at, delta),
    ensures
        carried_to(
            before.update((at - 1) / 2, before[(at - 1) / 2] + delta),
            target,
            (at - 1) / 2,
            delta,
        ),
{
    let parent = (at - 1) / 2;
    let after = before.update(parent, before[parent] + delta);
    assert forall|j: int| 0 <= j < after.len() implies #[trigger] own_weight(after, j) == target[j]
        - if parent > 0 && j == (parent - 1) / 2 {
        delta
    } else {
        0
    } by {
        assert(own_weight(before, j) == target[j] - if j == parent {
            delta
        } else {
            0
        });
        if j == parent {
        } else if parent > 0 && j == (parent - 1) / 2 {
            assert(2 * j + 1 == parent || 2 * j + 2 == parent);
        } else {
            assert(2 * j + 1 != parent && 2 * j + 2 != parent);
        }
    }
}

/// A carry that has reached the root has restored every weight.
pub proof fn lemma_carry_done(s: Seq<int>, target: Seq<int>, delta: int)
    requires
        carried_to(s, target, 0, delta),
    ensures
        weights_of(s) == target,
{
    assert(weights_of(s) =~= target);
}

/// Appending a node of weight `weight` and carrying that weight up from it gives the
/// old weights followed by the new one.
pub proof fn lemma_carry_after_push(s: Seq<int>, weight: int)
    ensures
        carry_target(s.push(weight), s.len() as int, weight) == weights_of(s).push(weight),
{
    let n = s.len() as int;
    let pushed = s.push(weight);
    let target = carry_target(pushed, n, weight);
    assert forall|j: int| 0 <= j < n + 1 implies target[j] == weights_of(s).push(weight)[j] by {
        if j < n {
            assert(subtotal_at(pushed, 2 * j + 1) == subtotal_at(s, 2 * j + 1) + if 2 * j + 1 == n {
                weight
            } else {
                0
            });
            assert(subtotal_at(pushed, 2 * j + 2) == subtotal_at(s, 2 * j + 2) + if 2 * j + 2 == n {
                weight
            } else {
                0
            });
        }
    }
    assert(target =~= weights_of(s).push(weight));
}

/// Removing the last node and carrying the loss of its weight up from its place gives
/// the old weights without the last one. The last node's subtotal is its own weight.
pub proof fn lemma_carry_after_pop(s: Seq<int>)
    requires
        s.len() > 0,
    ensures
        s.last() == weights_of(s).last(),
        carry_target(s.drop_last(), s.len() - 1, -s.last()) == weights_of(s).drop_last(),
{
    let n = s.len() - 1;
    let popped = s.drop_last();
    let target = carry_target(popped, n, -s.last());
    assert(weights_of(s).last() == own_weight(s, n));
    assert forall|j: int| 0 <= j < n implies target[j] == weights_of(s).drop_last()[j] by {
        assert(weights_of(s).drop_last()[j] == own_weight(s, j));
        assert(subtotal_at(popped, 2 * j + 1) == subtotal_at(s, 2 * j + 1) - if 2 * j + 1 == n {
            s.last()
        } else {
            0
        });
        assert(subtotal_at(popped, 2 * j + 2) == subtotal_at(s, 2 * j + 2) - if 2 * j + 2 == n {
            s.last()
        } else {
            0
        });
    }
    assert(target =~= weights_of(s).drop_last());
}

/// Changing the subtotal of node `at` by `delta` and carrying the change up from it
/// changes the weight of that node by `delta` and no other weight.
pub proof fn lemma_carry_after_update(s: Seq<int>, at: int, delta: int)
    requires
        0 <= at < s.len(),
    ensures
        carry_target(s.update(at, s[at] + delta), at, delta) == weights_of(s).update(
            at,
            own_weight(s, at) + delta,
        ),
{
    let changed = s.update(at, s[at] + delta);
    let target = carry_target(changed, at, delta);
    let wanted = weights_of(s).update(at, own_weight(s, at) + delta);
    assert forall|j: int| 0 <= j < s.len() implies target[j] == wanted[j] by {
        assert(subtotal_at(changed, 2 * j + 1) == subtotal_at(s, 2 * j + 1) + if 2 * j + 1 == at {
            delta
        } else {
            0
        });
        assert(subtotal_at(changed, 2 * j + 2) == subtotal_at(s, 2 * j + 2) + if 2 * j + 2 == at {
            delta
        } else {
            0
        });
    }
    assert(target =~= wanted);
}

/// Whether `node` lies in the subtree rooted at `root`.
pub open spec fn in_subtree(node: int, root: int) -> bool
    decreases node,
{
    node == root || (node > root && node > 0 && in_subtree((node - 1) / 2, root))
}

/// The weight of a subtree of nonnegative weights is not negative.
pub proof fn lemma_subtree_nonnegative(w: Seq<int>, i: int)
    requires
        all_nonnegative(w),
    ensures
        subtree_weight(w, i) >= 0,
    decreases w.len() - i,
{
    if 0 <= i < w.len() {
        if 2 * i + 1 < w.len() {
            lemma_subtree_nonnegative(w, 2 * i + 1);
        }
        if 2 * i + 2 < w.len() {
            lemma_subtree_nonnegative(w, 2 * i + 2);
        }
    }
}

/// Every node lies in the subtree of the root.
pub proof fn lemma_in_tree(node: int)
    requires
        0 <= node,
    ensures
        in_subtree(node, 0),
    decreases node,
{
    if node > 0 {
        lemma_in_tree((node - 1) / 2);
    }
}

/// A node of a subtree other than its root lies in the subtree of one of the root's
/// children.
proof fn lemma_in_child(node: int, root: int)
    requires
        0 <= root,
        in_subtree(node, root),
        node != root,
    ensures
        in_subtree(node, 2 * root + 1) || in_subtree(node, 2 * root + 2),
    decreases node,
{
    let parent = (node - 1) / 2;
    if parent != root {
        lemma_in_child(parent, root);
        lemma_not_above(parent, 2 * root + 1);
        lemma_not_above(parent, 2 * root + 2);
    }
}

/// A node of a subtree does not stand before the root of the subtree.
proof fn lemma_not_above(node: int, root: int)
    ensures
        in_subtree(node, root) ==> node >= root,
{
}

/// The stretch of weight that the subtree of `node` takes up lies within that of every
/// subtree that `node` is part of.
proof fn lemma_stretch_within(w: Seq<int>, node: int, root: int)
    requires
        all_nonnegative(w),
        0 <= root,
        in_subtree(node, root),
    ensures
        weight_passed(w, root) <= weight_passed(w, node),
        weight_passed(w, node) + subtree_weight(w, node) <= weight_passed(w, root) + subtree_weight(
            w,
            root,
        ),
    decreases node,
{
    if node != root {
        let parent = (node - 1) / 2;
        lemma_stretch_within(w, parent, root);
        lemma_not_above(parent, root);
        lemma_subtree_nonnegative(w, 2 * parent + 1);
        lemma_subtree_nonnegative(w, 2 * parent + 2);
        lemma_subtree_nonnegative(w, node);
        if node >= w.len() {
            assert(subtree_weight(w, node) == 0);
            lemma_subtree_nonnegative(w, parent);
        } else {
            assert(parent < w.len());
            assert(node == 2 * parent + 1 || node == 2 * parent + 2);
            assert(w[parent] >= 0);
        }
    }
}

/// The node of the subtree of `from` that a target is led to: into the left subtree
/// where the target falls on its stretch, into the right one where it falls on that,
/// and no further where it falls on neither.
pub open spec fn led_to(w: Seq<int>, from: int, target: int) -> int
    decreases w.len() - from,
{
    let rest = target - weight_passed(w, from);
    if 0 <= from && 2 * from + 1 < w.len() && rest < subtree_weight(w, 2 * from + 1) {
        led_to(w, 2 * from + 1, target)
    } else if 0 <= from && 2 * from + 2 < w.len() && rest < subtree_weight(w, 2 * from + 1)
        + subtree_weight(w, 2 * from + 2) {
        led_to(w, 2 * from + 2, target)
    } else {
        from
    }
}

/// A target that falls on the weight of `node` is led to `node` from the root of every
/// subtree that `node` is part of.
proof fn lemma_led_to(w: Seq<int>, from: int, node: int, target: int)
    requires
        all_nonnegative(w),
        0 <= from,
        0 <= node < w.len(),
        in_subtree(node, from),
        weight_before(w, node) <= target < weight_before(w, node) + w[node],
    ensures
        led_to(w, from, target) == node,
    decreases w.len() - from,
{
    lemma_not_above(node, from);
    lemma_subtree_nonnegative(w, 2 * from + 1);
    lemma_subtree_nonnegative(w, 2 * from + 2);
    lemma_subtree_nonnegative(w, 2 * node + 1);
    lemma_subtree_nonnegative(w, 2 * node + 2);
    if node != from {
        lemma_in_child(node, from);
        let left = 2 * from + 1;
        let right = 2 * from + 2;
        if in_subtree(node, left) {
            lemma_not_above(node, left);
            lemma_stretch_within(w, node, left);
            lemma_led_to(w, left, node, target);
        } else {
            lemma_not_above(node, right);
            lemma_stretch_within(w, node, right);
            lemma_led_to(w, right, node, target);
        }
    }
}

/// No two indices share a target: the stretches of weight of different indices do not
/// overlap, so the index on whose stretch a target falls is the only one.
pub proof fn lemma_stretches_apart(w: Seq<int>, first: int, second: int, target: int)
    requires
        all_nonnegative(w),
        0 <= first < w.len(),
        0 <= second < w.len(),
        weight_before(w, first) <= target < weight_before(w, first) + w[first],
        weight_before(w, second) <= target < weight_before(w, second) + w[second],
    ensures
        first == second,
{
    lemma_in_tree(first);
    lemma_in_tree(second);
    lemma_led_to(w, 0, first, target);
    lemma_led_to(w, 0, second, target);
}

/// The index that a target is led to from the root.
pub open spec fn index_of(w: Seq<int>, target: int) -> int {
    led_to(w, 0, target)
}

/// The targets that are led to `index`.
pub open spec fn targets_of(w: Seq<int>, index: int) -> Set<int> {
    Set::new(|target: int| 0 <= target < sum(w) && index_of(w, target) == index)
}

/// The weight of the whole tree is the sum of the weights.
pub proof fn lemma_tree_weight(w: Seq<int>)
    ensures
        subtree_weight(w, 0) == sum(w),
{
    if w.len() > 0 {
        let s = Seq::new(w.len(), |i: int| subtree_weight(w, i));
        assert forall|i: int| 0 <= i < w.len() implies own_weight(s, i) == w[i] by {}
        assert(weights_of(s) =~= w);
        lemma_root_is_sum(s);
    }
}

/// The stretch of weight of every index lies within the total: it starts at zero or
/// later and ends at the sum of the weights or before.
pub proof fn lemma_stretch_in_total(w: Seq<int>, index: int)
    requires
        all_nonnegative(w),
        0 <= index < w.len(),
    ensures
        0 <= weight_before(w, index),
        weight_before(w, index) + w[index] <= sum(w),
{
    lemma_in_tree(index);
    lemma_stretch_within(w, index, 0);
    lemma_tree_weight(w);
    lemma_subtree_nonnegative(w, 2 * index + 1);
    lemma_subtree_nonnegative(w, 2 * index + 2);
}

/// A target that falls on the weight of the subtree of `from` is led to a node on
/// whose own stretch it falls.
proof fn lemma_led_to_lands(w: Seq<int>, from: int, target: int)
    requires
        all_nonnegative(w),
        0 <= from < w.len(),
        weight_passed(w, from) <= target < weight_passed(w, from) + subtree_weight(w, from),
    ensures
        0 <= led_to(w, from, target) < w.len(),
        weight_before(w, led_to(w, from, target)) <= target < weight_before(
            w,
            led_to(w, from, target),
        ) + w[led_to(w, from, target)],
    decreases w.len() - from,
{
    let rest = target - weight_passed(w, from);
    lemma_subtree_nonnegative(w, 2 * from + 1);
    lemma_subtree_nonnegative(w, 2 * from + 2);
    if 2 * from + 1 < w.len() && rest < subtree_weight(w, 2 * from + 1) {
        lemma_led_to_lands(w, 2 * from + 1, target);
    } else if 2 * from + 2 < w.len() && rest < subtree_weight(w, 2 * from + 1) + subtree_weight(
        w,
        2 * from + 2,
    ) {
        lemma_led_to_lands(w, 2 * from + 2, target);
    }
}

/// Every target below the total is led to exactly one index: the one on whose stretch
/// of weight it falls.
pub proof fn lemma_index_of(w: Seq<int>, target: int)
    requires
        all_nonnegative(w),
        0 <= target < sum(w),
    ensures
        0 <= index_of(w, target) < w.len(),
        forall|index: int|
            0 <= index < w.len() ==> (#[trigger] weight_before(w, index) <= target < weight_before(
                w,
                index,
            ) + w[index] <==> index_of(w, target) == index),
{
    lemma_tree_weight(w);
    lemma_led_to_lands(w, 0, target);
    assert forall|index: int| 0 <= index < w.len() && #[trigger] weight_before(w, index) <= target
        < weight_before(w, index) + w[index] implies index_of(w, target) == index by {
        lemma_stretches_apart(w, index, index_of(w, target), target);
    }
}

/// The number of targets that are led to an index is the weight of the index: of the
/// `sum(w)` targets there are, `w[index]` give `index`, so that a target taken
/// evenly from them gives each index in proportion to its weight.
pub proof fn lemma_targets_counted(w: Seq<int>, index: int)
    requires
        all_nonnegative(w),
        0 <= index < w.len(),
    ensures
        targets_of(w, index) == vstd::set_lib::set_int_range(
            weight_before(w, index),
            weight_before(w, index) + w[index],
        ),
        targets_of(w, index).finite(),
        targets_of(w, index).len() == w[index],
{
    let low = weight_before(w, index);
    let high = low + w[index];
    let stretch = vstd::set_lib::set_int_range(low, high);
    lemma_stretch_in_total(w, index);
    assert forall|target: int| targets_of(w, index).contains(target) <==> stretch.contains(
        target,
    ) by {
        if 0 <= target < sum(w) {
            lemma_index_of(w, target);
            assert(weight_before(w, index) <= target < weight_before(w, index) + w[index]
                <==> index_of(w, target) == index);
        }
    }
    assert(targets_of(w, index) =~= stretch);
    vstd::set_lib::lemma_int_range(low, high);
}

} // verus!
