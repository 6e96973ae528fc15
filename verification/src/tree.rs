//! The index arithmetic of flat trees, as far as the diagram needs it.
//!
//! A flat tree numbers the nodes of a complete binary tree in order: the
//! leaves are the even indices, and a node of level `d` sits in the middle of
//! a block of `2^(d+1)` consecutive indices that holds its whole subtree and
//! one index more.
//!
//! ```text
//! level 2          3
//! level 1      1       5
//! level 0    0   2   4   6
//! ```

use vstd::prelude::*;
use vstd::arithmetic::div_mod::lemma_fundamental_div_mod_converse;
use vstd::arithmetic::power2::{
    lemma2_to64, lemma2_to64_rest, lemma_pow2_pos, lemma_pow2_strictly_increases,
    lemma_pow2_unfold, pow2,
};

verus! {

/// The depth of node `i`, its level above the leaves: the number of one bits
/// that end its binary form. Leaves are the even indices, at level 0.
pub open spec fn depth_of(i: nat) -> nat
    decreases i,
{
    if i % 2 == 0 {
        0
    } else {
        1 + depth_of(i / 2)
    }
}

/// The distance from an inner node `i` to either of its children.
pub open spec fn child_distance(i: nat) -> nat {
    pow2((depth_of(i) - 1) as nat)
}

/// The left child of the inner (odd) node `i`.
pub open spec fn left_child_of(i: nat) -> nat {
    (i - child_distance(i)) as nat
}

/// The right child of the inner (odd) node `i`.
pub open spec fn right_child_of(i: nat) -> nat {
    i + child_distance(i)
}

/// The node of level `level` whose block of `2^(level+1)` indices holds
/// `row`: the ancestor of `row` at that level, where `row` lies below it.
pub open spec fn node_over(row: nat, level: nat) -> nat {
    ((row / pow2(level + 1)) * pow2(level + 1) + pow2(level) - 1) as nat
}

/// `flat_tree::depth` counts the one bits below the lowest zero bit of `i`
/// (the trailing zeros of `!i`), which is `depth_of(i)`. It is defined on
/// every `usize`.
pub assume_specification[ flat_tree::depth ](i: usize) -> (d: usize)
    ensures
        d == depth_of(i as nat),
;

/// `flat_tree::children` returns `None` for an even index. For an odd index
/// `i`, of level `d >= 1`, it returns the nodes of level `d - 1` at the
/// offsets `2k` and `2k + 1`, where `k = i >> (d + 1)` is the offset of `i`:
/// `(2k << d) | (2^(d-1) - 1)` and `((2k + 1) << d) | (2^(d-1) - 1)`. As `i`
/// ends in a zero bit and `d` one bits, `i == (k << (d + 1)) + 2^d - 1`, so
/// the two are `i - 2^(d-1)` and `i + 2^(d-1)`. The shift by `d + 1`
/// overflows once `d + 1` reaches the word size, which `requires` leaves out.
pub assume_specification[ flat_tree::children ](i: usize) -> (pair: Option<(usize, usize)>)
    requires
        i % 2 == 1 ==> depth_of(i as nat) + 1 < usize::BITS,
    ensures
        pair is Some <==> i % 2 == 1,
        pair is Some ==> pair.unwrap().0 == left_child_of(i as nat),
        pair is Some ==> pair.unwrap().1 == right_child_of(i as nat),
;

/// The node at offset `k` of level `level` has that level.
pub proof fn lemma_depth_of_node(k: nat, level: nat)
    ensures
        pow2(level) >= 1,
        depth_of((k * pow2(level + 1) + pow2(level) - 1) as nat) == level,
    decreases level,
{
    lemma_pow2_pos(level);
    lemma_pow2_unfold(level + 1);
    let q = pow2(level);
    let n = (k * pow2(level + 1) + q - 1) as nat;
    assert(k * (2 * q) == 2 * (k * q)) by (nonlinear_arith);
    if level == 0 {
        lemma2_to64();
        assert(n == 2 * k);
    } else {
        lemma_pow2_unfold(level);
        lemma_pow2_pos((level - 1) as nat);
        let h = pow2((level - 1) as nat);
        let j = (k * q + h - 1) as nat;
        assert(n == 2 * j + 1);
        assert(n / 2 == j);
        lemma_depth_of_node(k, (level - 1) as nat);
    }
}

/// Every index is the middle of its own block: it is the node of its own
/// level over itself.
pub proof fn lemma_node_over_self(i: nat)
    ensures
        node_over(i, depth_of(i)) == i,
    decreases i,
{
    let d = depth_of(i);
    lemma2_to64();
    if i % 2 == 0 {
        assert(d == 0);
        assert(pow2(1) == 2 && pow2(0) == 1);
        assert((i / 2) * 2 == i);
        assert((i / pow2(1)) * pow2(1) == (i / 2) * 2);
    } else {
        let j = i / 2;
        let e = depth_of(j);
        assert(d == e + 1);
        lemma_node_over_self(j);
        lemma_pow2_unfold(e + 1);
        lemma_pow2_unfold(e + 2);
        lemma_pow2_pos(e);
        let m = pow2(e + 1);
        let k = j / m;
        assert(j == k * m + pow2(e) - 1);
        assert(k * (2 * m) == 2 * (k * m)) by (nonlinear_arith);
        assert(i == k * pow2(d + 1) + pow2(d) - 1);
        lemma_fundamental_div_mod_converse(
            i as int,
            pow2(d + 1) as int,
            k as int,
            pow2(d) - 1,
        );
        assert(i / pow2(d + 1) == k);
    }
}

/// All indices of the block at offset `k` of level `level` lie under the
/// same node of that level.
pub proof fn lemma_node_over_block(k: nat, level: nat, row: nat)
    requires
        k * pow2(level + 1) <= row < (k + 1) * pow2(level + 1),
    ensures
        node_over(row, level) == k * pow2(level + 1) + pow2(level) - 1,
{
    let m = pow2(level + 1);
    lemma_pow2_pos(level + 1);
    lemma_pow2_pos(level);
    assert((k + 1) * m == k * m + m) by (nonlinear_arith);
    lemma_fundamental_div_mod_converse(row as int, m as int, k as int, row - k * m);
}

/// The node over a row at some level has that level.
pub proof fn lemma_depth_of_node_over(row: nat, level: nat)
    ensures
        depth_of(node_over(row, level)) == level,
{
    lemma_depth_of_node(row / pow2(level + 1), level);
}

/// A node of level `d` is at least `2^d - 1`.
pub proof fn lemma_depth_bound(i: nat)
    ensures
        pow2(depth_of(i)) <= i + 1,
{
    let d = depth_of(i);
    lemma_node_over_self(i);
    lemma_pow2_pos(d + 1);
    let k = i / pow2(d + 1);
    assert(k * pow2(d + 1) >= 0) by (nonlinear_arith)
        requires
            k >= 0,
            pow2(d + 1) >= 0,
    ;
}

/// What holds of the children of an inner node `p` of level `d`: they lie
/// `2^(d-1)` to either side of it, one level down, and every row from the
/// left child to the right child has `p` over it at level `d`.
pub proof fn lemma_children(p: nat)
    requires
        p % 2 == 1,
    ensures
        depth_of(p) >= 1,
        1 <= child_distance(p) <= p,
        depth_of(left_child_of(p)) == depth_of(p) - 1,
        depth_of(right_child_of(p)) == depth_of(p) - 1,
        forall|row: nat|
            left_child_of(p) <= row <= right_child_of(p) ==> #[trigger] node_over(
                row,
                depth_of(p),
            ) == p,
{
    let d = depth_of(p);
    let e = (d - 1) as nat;
    let h = pow2(e);
    let m = pow2(d + 1);
    let k = p / m;
    lemma_node_over_self(p);
    lemma_pow2_unfold(d);
    lemma_pow2_unfold(d + 1);
    lemma_pow2_pos(e);
    assert(m == 4 * h);
    assert(p == k * m + 2 * h - 1);
    assert(k * m >= 0) by (nonlinear_arith)
        requires
            k >= 0,
            m >= 0,
    ;
    assert((2 * k) * (2 * h) == k * (4 * h)) by (nonlinear_arith);
    assert((2 * k + 1) * (2 * h) == k * (4 * h) + 2 * h) by (nonlinear_arith);
    lemma_depth_of_node(2 * k, e);
    lemma_depth_of_node(2 * k + 1, e);
    assert(left_child_of(p) == (2 * k) * pow2(e + 1) + pow2(e) - 1);
    assert(right_child_of(p) == (2 * k + 1) * pow2(e + 1) + pow2(e) - 1);
    assert forall|row: nat| left_child_of(p) <= row <= right_child_of(p) implies #[trigger] node_over(
        row,
        d,
    ) == p by {
        assert((k + 1) * m == k * m + m) by (nonlinear_arith);
        lemma_node_over_block(k, d, row);
    }
}

/// The level of a node is no larger than its index.
pub proof fn lemma_depth_at_most_index(i: nat)
    ensures
        depth_of(i) <= i,
    decreases i,
{
    if i % 2 == 1 {
        lemma_depth_at_most_index(i / 2);
    }
}

/// Below `isize::MAX` every level is small enough for the shifts of
/// `flat_tree::children`.
pub proof fn lemma_depth_fits(i: nat)
    requires
        i < isize::MAX,
    ensures
        depth_of(i) + 1 < usize::BITS,
{
    let d = depth_of(i);
    let top = (usize::BITS - 1) as nat;
    lemma_depth_bound(i);
    lemma2_to64();
    lemma2_to64_rest();
    assert(pow2(top) == isize::MAX + 1);
    if d > top {
        lemma_pow2_strictly_increases(top, d);
    }
}

} // verus!
