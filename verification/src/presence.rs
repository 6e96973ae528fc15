//! The presence set of a tree: which of the rows of its diagram hold a node.

use vstd::prelude::*;

verus! {

/// The number of rows of the diagram of `tree`: one more than its largest
/// index, and none where there is no index.
pub open spec fn row_count(tree: Seq<usize>) -> nat
    decreases tree.len(),
{
    if tree.len() == 0 {
        0
    } else {
        let rest = row_count(tree.drop_last());
        if tree.last() + 1 > rest {
            (tree.last() + 1) as nat
        } else {
            rest
        }
    }
}

/// Whether `i` is one of the indices of `tree`.
pub open spec fn has_index(tree: Seq<usize>, i: int) -> bool {
    exists|k: int| 0 <= k < tree.len() && tree[k] == i
}

/// The presence set of `tree`: for every row, whether its index was given.
/// Order and repetition of the indices leave no trace in it.
pub open spec fn presence(tree: Seq<usize>) -> Seq<bool> {
    Seq::new(row_count(tree), |i: int| has_index(tree, i))
}

/// Whether every index of `tree` is small enough to be drawn: a presence set
/// holds one entry more than the largest index, and no allocation is larger
/// than `isize::MAX`.
pub open spec fn drawable(tree: Seq<usize>) -> bool {
    forall|k: int| 0 <= k < tree.len() ==> tree[k] < isize::MAX
}

/// Whether `i` is a row of the presence set and present in it.
pub open spec fn is_present(present: Seq<bool>, i: int) -> bool {
    0 <= i < present.len() && present[i]
}

/// Tests whether the indices of `tree` are small enough to be drawn.
pub fn can_draw(tree: &[usize]) -> (ok: bool)
    ensures
        ok == drawable(tree@),
{
    for k in 0..tree.len()
        invariant
            forall|j: int| 0 <= j < k ==> tree[j] < isize::MAX,
    {
        if tree[k] >= isize::MAX as usize {
            return false;
        }
    }
    true
}

/// Counts the rows of the diagram of `tree`.
pub fn rows_of(tree: &[usize]) -> (rows: usize)
    requires
        forall|k: int| 0 <= k < tree.len() ==> tree[k] < usize::MAX,
    ensures
        rows == row_count(tree@),
{
    let mut rows: usize = 0;
    for k in 0..tree.len()
        invariant
            forall|j: int| 0 <= j < tree.len() ==> tree[j] < usize::MAX,
            rows == row_count(tree@.take(k as int)),
    {
        assert(tree@.take(k + 1).drop_last() == tree@.take(k as int));
        if tree[k] + 1 > rows {
            rows = tree[k] + 1;
        }
    }
    assert(tree@.take(tree.len() as int) == tree@);
    rows
}

/// Builds the presence set of `tree`.
pub fn presence_of(tree: &[usize]) -> (list: Vec<bool>)
    requires
        forall|k: int| 0 <= k < tree.len() ==> tree[k] < usize::MAX,
    ensures
        list@ == presence(tree@),
{
    let rows = rows_of(tree);
    let mut list: Vec<bool> = Vec::new();
    for i in 0..rows
        invariant
            list.len() == i,
            forall|j: int| 0 <= j < i ==> !list[j],
    {
        list.push(false);
    }
    proof {
        lemma_row_count(tree@);
    }
    for k in 0..tree.len()
        invariant
            list.len() == rows,
            forall|j: int| 0 <= j < tree.len() ==> tree[j] < rows,
            forall|i: int| 0 <= i < rows ==> list[i] == has_index(tree@.take(k as int), i),
    {
        let ghost seen = tree@.take(k as int);
        let ghost next = tree@.take(k + 1);
        list[tree[k]] = true;
        assert forall|i: int| 0 <= i < rows implies list[i] == has_index(next, i) by {
            if has_index(seen, i) {
                let j = choose|j: int| 0 <= j < seen.len() && seen[j] == i;
                assert(next[j] == i);
            }
            if i == tree[k as int] {
                assert(next[k as int] == i);
            }
            if has_index(next, i) {
                let j = choose|j: int| 0 <= j < next.len() && next[j] == i;
                if j < k {
                    assert(seen[j] == i);
                }
            }
        }
    }
    assert(tree@.take(tree.len() as int) == tree@);
    list
}

/// Every index of `tree` is a row, and the last row is one of its indices.
pub proof fn lemma_row_count(tree: Seq<usize>)
    ensures
        forall|k: int| 0 <= k < tree.len() ==> #[trigger] tree[k] < row_count(tree),
        tree.len() > 0 ==> has_index(tree, row_count(tree) - 1),
        tree.len() == 0 ==> row_count(tree) == 0,
    decreases tree.len(),
{
    if tree.len() > 0 {
        let front = tree.drop_last();
        lemma_row_count(front);
        assert forall|k: int| 0 <= k < tree.len() implies #[trigger] tree[k] < row_count(tree) by {
            if k < front.len() {
                assert(front[k] == tree[k]);
            }
        }
        if tree.last() + 1 > row_count(front) {
            assert(tree[tree.len() - 1] == row_count(tree) - 1);
        } else {
            let k = choose|k: int| 0 <= k < front.len() && front[k] == row_count(front) - 1;
            assert(tree[k] == row_count(tree) - 1);
        }
    }
}

/// The presence set depends on the indices alone, not on their order or on
/// how often one is given.
pub proof fn lemma_presence_of_same_indices(a: Seq<usize>, b: Seq<usize>)
    requires
        forall|i: int| has_index(a, i) == has_index(b, i),
    ensures
        presence(a) == presence(b),
{
    lemma_row_count(a);
    lemma_row_count(b);
    if a.len() > 0 {
        let i = row_count(a) - 1;
        assert(has_index(b, i));
        let k = choose|k: int| 0 <= k < b.len() && b[k] == i;
        assert(b[k] < row_count(b));
    }
    if b.len() > 0 {
        let i = row_count(b) - 1;
        assert(has_index(a, i));
        let k = choose|k: int| 0 <= k < a.len() && a[k] == i;
        assert(a[k] < row_count(a));
    }
    if a.len() == 0 && b.len() > 0 {
        assert(has_index(b, b[0] as int));
        assert(has_index(a, b[0] as int));
    }
    if b.len() == 0 && a.len() > 0 {
        assert(has_index(a, a[0] as int));
        assert(has_index(b, a[0] as int));
    }
    assert(row_count(a) == row_count(b));
    assert(presence(a) =~= presence(b));
}

} // verus!
