//! Renders a flat tree, a set of node indices of an array-packed complete
//! binary tree, as a text diagram that links every node to its parent.
//!
//! Every index from 0 to the largest one given gets a line of its own, and
//! every level of the tree a column. The indices `0 1 2 3 7 8 9 10` give
//!
//! ```text
//!   0──┐
//!      1──┐
//!   2──┘  │
//!         3──┐
//!            │
//!            │
//!            │
//!            7
//!   8──┐
//!      9
//!  10──┘
//! ```
//!
//! so 7 is the parent of 3, 3 the parent of 1, and 9 that of 8 and 10.
//!
//! [`fmt`] draws a tree; [`build`] and [`serialize`] are its two halves, the
//! matrix of cells and the lines made of it. What the text is, cell by cell,
//! says [`grid::glyph_at`].

use vstd::prelude::*;

pub mod cell;
pub mod grid;
pub mod options;
pub mod path;
pub mod presence;
pub mod text;
pub mod tree;

use crate::cell::{
    blank_text, decimal, label_text, label_width, lemma_decimal_len_monotonic,
    lemma_label_text,
};
use crate::grid::{
    column_count, diagram, lemma_diagram_cells, lemma_label_glyph, lemma_line_holds_glyph,
    lemma_lone_node_cells,
};
use crate::presence::{
    drawable, has_index, is_present, lemma_presence_of_same_indices, lemma_row_count, presence,
    row_count,
};
use crate::text::{
    lemma_lines_count, lemma_lines_of_empty_rows, line_count, line_text, lines_text,
};
use crate::tree::depth_of;

pub use crate::cell::pad;
pub use crate::grid::build;
pub use crate::options::Options;
pub use crate::path::add_path;
pub use crate::presence::can_draw;
pub use crate::text::serialize;

verus! {

/// The text of the diagram of `tree`: the lines of the cells of its presence
/// set. It is empty where `tree` holds no index.
pub open spec fn render(tree: Seq<usize>) -> Seq<char> {
    lines_text(diagram(presence(tree)))
}

/// Converts a flat tree to the text of its diagram. No index gives the empty
/// text.
pub fn fmt(tree: &[usize]) -> (text: String)
    requires
        drawable(tree@),
    ensures
        text@ == render(tree@),
{
    let matrix = build(tree);
    serialize(&matrix)
}

/// The text has one line for every index from 0 to the largest one given:
/// where `tree[k]` is that largest index, `tree[k] + 1` lines.
pub proof fn lemma_render_line_count(tree: Seq<usize>, k: int)
    requires
        0 <= k < tree.len(),
        forall|j: int| 0 <= j < tree.len() ==> tree[j] <= tree[k],
    ensures
        line_count(render(tree)) == tree[k] + 1,
{
    lemma_row_count(tree);
    let j = choose|j: int| 0 <= j < tree.len() && tree[j] == row_count(tree) - 1;
    assert(tree[j] <= tree[k]);
    lemma_diagram_cells(presence(tree));
    lemma_lines_count(diagram(presence(tree)));
}

/// Every index given stands as a label in the line of its row, in the cell
/// of the column of its level, with its last digit at the cell's right edge.
pub proof fn lemma_render_label(tree: Seq<usize>, k: int)
    requires
        0 <= k < tree.len(),
    ensures
        ({
            let present = presence(tree);
            let node = tree[k] as nat;
            let level = depth_of(node);
            let width = label_width((present.len() - 1) as nat);
            let line = line_text(diagram(present)[node as int]);
            let from = level * width as int;
            &&& node < present.len()
            &&& level < column_count(present)
            &&& 0 <= from
            &&& from + width < line.len()
            &&& line.subrange(from, from + width) == label_text(node, width)
            &&& label_text(node, width).len() == width
            &&& label_text(node, width).subrange(width - decimal(node).len(), width as int)
                == decimal(node)
        }),
{
    let present = presence(tree);
    let node = tree[k] as nat;
    let level = depth_of(node);
    let width = label_width((present.len() - 1) as nat);
    lemma_row_count(tree);
    assert(has_index(tree, node as int));
    assert(is_present(present, node as int));
    lemma_label_glyph(present, node, level);
    lemma_line_holds_glyph(present, node, level);
    lemma_decimal_len_monotonic(node, (present.len() - 1) as nat);
    lemma_label_text(node, width);
    assert(label_text(node, width).subrange(width - decimal(node).len(), width as int)
        == decimal(node));
}

/// The text depends on the indices alone: two inputs that hold the same
/// indices, in whatever order and however often, have the same text. So has
/// one input, drawn twice.
pub proof fn lemma_render_of_same_indices(a: Seq<usize>, b: Seq<usize>)
    requires
        forall|i: int| has_index(a, i) == has_index(b, i),
    ensures
        render(a) == render(b),
{
    lemma_presence_of_same_indices(a, b);
}

/// A lone node is drawn as its label alone: an empty line for every row
/// before its own, then blanks up to the column of its level, its label, and
/// the line feed. No connector appears.
pub proof fn lemma_render_lone_node(tree: Seq<usize>, node: nat)
    requires
        tree.len() > 0,
        forall|k: int| 0 <= k < tree.len() ==> #[trigger] tree[k] == node,
    ensures
        ({
            let width = label_width(node);
            render(tree) == (Seq::new(node, |r: int| '\n') + blank_text(depth_of(node) * width)
                + label_text(node, width)).push('\n')
        }),
{
    let present = presence(tree);
    lemma_row_count(tree);
    let k = choose|k: int| 0 <= k < tree.len() && tree[k] == row_count(tree) - 1;
    assert(row_count(tree) == node + 1);
    assert forall|i: int| 0 <= i < present.len() implies present[i] == (i == present.len()
        - 1) by {
        if i == node {
            assert(tree[0] == i);
        }
    }
    let rows = diagram(present);
    let front = rows.drop_last();
    assert forall|r: int| 0 <= r < front.len() implies line_text(#[trigger] front[r])
        == seq!['\n'] by {
        lemma_lone_node_cells(present, r);
        assert(front[r] == rows[r]);
    }
    lemma_lines_of_empty_rows(front);
    lemma_lone_node_cells(present, node as int);
}

} // verus!
