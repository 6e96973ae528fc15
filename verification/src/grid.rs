//! The matrix of cells behind a diagram: one row per index, one column per
//! level, a label where a node stands and connectors from each child to its
//! parent.

use vstd::prelude::*;
use crate::cell::{
    blank, blank_text, glyph_text, label, label_text, label_width, lemma_decimal_len_monotonic,
    lemma_glyph_text, lemma_label_text, width_for, Glyph,
};
use crate::path::{add_path, path_cell, Direction};
use crate::presence::{
    drawable, is_present, lemma_row_count, presence, presence_of, row_count,
};
use crate::text::{
    cells, feed_free, is_whitespace, join, lemma_join_uniform, lemma_trim_end,
    lemma_trim_end_of_whitespace, line_text, trim_end, uniform,
};
use crate::tree::{
    depth_of, left_child_of, lemma_children, lemma_depth_at_most_index, lemma_depth_fits,
    lemma_depth_of_node_over, lemma_node_over_self, node_over, right_child_of,
};

verus! {

/// The number of columns: one more than the highest level among the present
/// nodes, and none where no node is present.
pub open spec fn column_count(present: Seq<bool>) -> nat
    decreases present.len(),
{
    if present.len() == 0 {
        0
    } else {
        let rest = column_count(present.drop_last());
        let level = depth_of((present.len() - 1) as nat);
        if present.last() && level + 1 > rest {
            level + 1
        } else {
            rest
        }
    }
}

/// What the cell at (`row`, `col`) of the diagram shows. The cell belongs to
/// the node `p` of level `col` over `row`, and stays blank unless `p` is
/// present. In `p`'s own row stands its label. Above it, from the row of its
/// left child on, runs the connector of that child, if the child is present:
/// a corner in the child's row, bars below. Below it, down to the row of its
/// right child, runs the connector of that child in the same way, if the
/// child is a row of the diagram and present.
pub open spec fn glyph_at(present: Seq<bool>, row: nat, col: nat) -> Glyph {
    let p = node_over(row, col);
    if !is_present(present, p as int) {
        Glyph::Blank
    } else if row == p {
        Glyph::Label
    } else if col == 0 {
        Glyph::Blank
    } else if left_child_of(p) <= row < p && is_present(present, left_child_of(p) as int) {
        if row == left_child_of(p) {
            Glyph::TurnDown
        } else {
            Glyph::Bar
        }
    } else if p < row <= right_child_of(p) && is_present(present, right_child_of(p) as int) {
        if row == right_child_of(p) {
            Glyph::TurnUp
        } else {
            Glyph::Bar
        }
    } else {
        Glyph::Blank
    }
}

/// The cells of the diagram of a presence set: a row for every index, a
/// column for every level up to the highest present one, all cells as wide
/// as the label of the last row and a space.
pub open spec fn diagram(present: Seq<bool>) -> Seq<Seq<Seq<char>>> {
    Seq::new(
        present.len(),
        |r: int|
            Seq::new(
                column_count(present),
                |c: int|
                    glyph_text(
                        glyph_at(present, r as nat, c as nat),
                        r as nat,
                        label_width((present.len() - 1) as nat),
                    ),
            ),
    )
}

/// What the cell at (`row`, `col`) shows once the nodes below `done` have
/// been drawn: each node draws the cells that belong to it, and no others.
spec fn drawn(present: Seq<bool>, done: nat, row: nat, col: nat) -> Glyph {
    if node_over(row, col) < done {
        glyph_at(present, row, col)
    } else {
        Glyph::Blank
    }
}

/// The text of the cell at (`row`, `col`) after node `i` has been drawn over
/// a cell that held `before`: its label, then the connector of its left
/// child, then that of its right child where that child is a row.
spec fn node_cell(present: Seq<bool>, i: nat, row: nat, col: nat, before: Seq<char>) -> Seq<char> {
    let width = label_width((present.len() - 1) as nat);
    let level = depth_of(i);
    let labelled = if row == i && col == level {
        label_text(i, width)
    } else {
        before
    };
    if !present[i as int] {
        before
    } else if i % 2 == 0 {
        labelled
    } else {
        let left = path_cell(
            present,
            left_child_of(i),
            i,
            level,
            Direction::Down,
            row,
            col,
            labelled,
        );
        if right_child_of(i) < present.len() {
            path_cell(present, right_child_of(i), i, level, Direction::Up, row, col, left)
        } else {
            left
        }
    }
}

/// Counts the columns of the diagram of a presence set.
pub fn columns_of(list: &[bool]) -> (cols: usize)
    ensures
        cols == column_count(list@),
{
    let mut cols: usize = 0;
    for i in 0..list.len()
        invariant
            cols == column_count(list@.take(i as int)),
    {
        assert(list@.take(i + 1).drop_last() == list@.take(i as int));
        if list[i] {
            let level = flat_tree::depth(i);
            proof {
                lemma_depth_at_most_index(i as nat);
            }
            if level + 1 > cols {
                cols = level + 1;
            }
        }
    }
    assert(list@.take(list.len() as int) == list@);
    cols
}

/// Builds a matrix of `rows` by `cols` blank cells of `width` characters.
pub fn blank_matrix(rows: usize, cols: usize, width: usize) -> (matrix: Vec<Vec<String>>)
    ensures
        matrix.len() == rows,
        forall|r: int| 0 <= r < rows ==> (#[trigger] matrix[r]).len() == cols,
        forall|r: int, c: int|
            0 <= r < rows && 0 <= c < cols ==> (#[trigger] matrix[r][c])@ == blank_text(
                width as nat,
            ),
{
    let mut matrix: Vec<Vec<String>> = Vec::new();
    for r in 0..rows
        invariant
            matrix.len() == r,
            forall|k: int| 0 <= k < r ==> (#[trigger] matrix[k]).len() == cols,
            forall|k: int, c: int|
                0 <= k < r && 0 <= c < cols ==> (#[trigger] matrix[k][c])@ == blank_text(
                    width as nat,
                ),
    {
        let mut row: Vec<String> = Vec::new();
        for c in 0..cols
            invariant
                row.len() == c,
                forall|j: int| 0 <= j < c ==> (#[trigger] row[j])@ == blank_text(width as nat),
        {
            row.push(blank(width));
        }
        matrix.push(row);
    }
    matrix
}

/// Builds the matrix of cells of the diagram of a presence set. Every slice
/// of `bool` is short enough for it: none holds more than `isize::MAX` bytes.
pub fn draw(list: &[bool]) -> (matrix: Vec<Vec<String>>)
    requires
        list.len() <= isize::MAX,
    ensures
        cells(matrix@) == diagram(list@),
{
    let rows = list.len();
    if rows == 0 {
        let matrix: Vec<Vec<String>> = Vec::new();
        assert(cells(matrix@) =~~= diagram(list@));
        return matrix;
    }
    let width = width_for(rows - 1);
    let cols = columns_of(list);
    let mut matrix = blank_matrix(rows, cols, width);

    for i in 0..rows
        invariant
            rows == list.len(),
            rows <= isize::MAX,
            cols == column_count(list@),
            width == label_width((rows - 1) as nat),
            matrix.len() == rows,
            forall|r: int| 0 <= r < rows ==> (#[trigger] matrix[r]).len() == cols,
            forall|r: int, c: int|
                0 <= r < rows && 0 <= c < cols ==> (#[trigger] matrix[r][c])@ == glyph_text(
                    drawn(list@, i as nat, r as nat, c as nat),
                    r as nat,
                    width as nat,
                ),
    {
        let ghost start = matrix@;
        if list[i] {
            let depth = flat_tree::depth(i);
            proof {
                lemma_column_count(list@);
                assert(is_present(list@, i as int));
                lemma_depth_fits(i as nat);
            }
            matrix[i][depth] = label(i, width);

            if let Some(children) = flat_tree::children(i) {
                proof {
                    lemma_children(i as nat);
                }
                add_path(list, &mut matrix, children.0, i, depth, Direction::Down);
                if children.1 < rows {
                    add_path(list, &mut matrix, children.1, i, depth, Direction::Up);
                }
            }
        }
        proof {
            assert forall|r: int, c: int| 0 <= r < rows && 0 <= c < cols implies (
            #[trigger] matrix[r][c])@ == glyph_text(
                drawn(list@, (i + 1) as nat, r as nat, c as nat),
                r as nat,
                width as nat,
            ) by {
                assert(matrix[r][c]@ == node_cell(
                    list@,
                    i as nat,
                    r as nat,
                    c as nat,
                    start[r][c]@,
                ));
                lemma_node_drawn(list@, i as nat, r as nat, c as nat, start[r][c]@);
            }
        }
    }
    proof {
        assert forall|r: int, c: int| 0 <= r < rows && 0 <= c < cols implies (
        #[trigger] matrix[r][c])@ == diagram(list@)[r][c] by {
            assert(drawn(list@, rows as nat, r as nat, c as nat) == glyph_at(
                list@,
                r as nat,
                c as nat,
            ));
        }
        assert(cells(matrix@) =~~= diagram(list@));
    }
    matrix
}

/// Builds the matrix of cells of the diagram of `tree`. For no index at all
/// the matrix has no rows.
pub fn build(tree: &[usize]) -> (matrix: Vec<Vec<String>>)
    requires
        drawable(tree@),
    ensures
        cells(matrix@) == diagram(presence(tree@)),
{
    let list = presence_of(tree);
    proof {
        lemma_row_count(tree@);
        if tree.len() > 0 {
            let k = choose|k: int| 0 <= k < tree.len() && tree[k] == row_count(tree@) - 1;
            assert(tree[k] < isize::MAX);
        }
    }
    draw(list.as_slice())
}

/// Every present node has a column.
pub proof fn lemma_column_count(present: Seq<bool>)
    ensures
        forall|i: int| #[trigger] is_present(present, i) ==> depth_of(i as nat) < column_count(present),
    decreases present.len(),
{
    if present.len() > 0 {
        let front = present.drop_last();
        lemma_column_count(front);
        assert forall|i: int| #[trigger] is_present(present, i) implies depth_of(i as nat)
            < column_count(present) by {
            if i < front.len() {
                assert(is_present(front, i));
            }
        }
    }
}

/// Drawing node `i` completes exactly the cells that belong to it.
proof fn lemma_node_drawn(present: Seq<bool>, i: nat, row: nat, col: nat, before: Seq<char>)
    requires
        i < present.len(),
        before == glyph_text(
            drawn(present, i, row, col),
            row,
            label_width((present.len() - 1) as nat),
        ),
    ensures
        node_cell(present, i, row, col, before) == glyph_text(
            drawn(present, i + 1, row, col),
            row,
            label_width((present.len() - 1) as nat),
        ),
{
    lemma_depth_of_node_over(row, col);
    lemma_node_over_self(i);
    if present[i as int] && i % 2 == 1 {
        lemma_children(i);
        assert(node_over(left_child_of(i), depth_of(i)) == i);
        assert(node_over(right_child_of(i), depth_of(i)) == i);
        if left_child_of(i) <= row <= right_child_of(i) {
            assert(node_over(row, depth_of(i)) == i);
        }
    }
}

/// Every cell of a diagram is as wide as the label of the last row and a
/// space, and holds no line feed.
pub proof fn lemma_diagram_cells(present: Seq<bool>)
    ensures
        diagram(present).len() == present.len(),
        forall|r: int|
            0 <= r < present.len() ==> (#[trigger] diagram(present)[r]).len() == column_count(
                present,
            ),
        forall|r: int|
            0 <= r < present.len() ==> uniform(
                #[trigger] diagram(present)[r],
                label_width((present.len() - 1) as nat),
            ),
        forall|r: int, c: int|
            0 <= r < present.len() && 0 <= c < column_count(present) ==> feed_free(
                #[trigger] diagram(present)[r][c],
            ),
{
    let width = label_width((present.len() - 1) as nat);
    assert forall|r: int, c: int| 0 <= r < present.len() && 0 <= c < column_count(
        present,
    ) implies feed_free(#[trigger] diagram(present)[r][c]) && diagram(present)[r][c].len()
        == width by {
        lemma_decimal_len_monotonic(r as nat, (present.len() - 1) as nat);
        lemma_glyph_text(glyph_at(present, r as nat, c as nat), r as nat, width);
    }
}

/// A cell shows a label exactly where a present node stands: in the node's
/// row, in the column of its level.
pub proof fn lemma_label_glyph(present: Seq<bool>, row: nat, col: nat)
    ensures
        glyph_at(present, row, col) == Glyph::Label <==> is_present(present, row as int) && col
            == depth_of(row),
        is_present(present, row as int) ==> depth_of(row) < column_count(present),
{
    lemma_depth_of_node_over(row, col);
    lemma_node_over_self(row);
    lemma_column_count(present);
}

/// The connector of a present left child of a present node `p`: a corner in
/// the child's row and a bar in every row from there to `p`'s, all in `p`'s
/// column.
pub proof fn lemma_left_connector(present: Seq<bool>, p: nat, row: nat)
    requires
        p % 2 == 1,
        is_present(present, p as int),
        is_present(present, left_child_of(p) as int),
        left_child_of(p) <= row < p,
    ensures
        row == left_child_of(p) ==> glyph_at(present, row, depth_of(p)) == Glyph::TurnDown,
        row != left_child_of(p) ==> glyph_at(present, row, depth_of(p)) == Glyph::Bar,
{
    lemma_children(p);
    assert(node_over(row, depth_of(p)) == p);
}

/// The connector of a present right child of a present node `p`: a corner in
/// the child's row and a bar in every row from `p`'s to there, all in `p`'s
/// column.
pub proof fn lemma_right_connector(present: Seq<bool>, p: nat, row: nat)
    requires
        p % 2 == 1,
        is_present(present, p as int),
        is_present(present, right_child_of(p) as int),
        p < row <= right_child_of(p),
    ensures
        row == right_child_of(p) ==> glyph_at(present, row, depth_of(p)) == Glyph::TurnUp,
        row != right_child_of(p) ==> glyph_at(present, row, depth_of(p)) == Glyph::Bar,
{
    lemma_children(p);
    assert(node_over(row, depth_of(p)) == p);
}

/// Where the right child of a node `p` lies past the last row, or is not
/// present, nothing is drawn below `p` in its column.
pub proof fn lemma_no_right_connector(present: Seq<bool>, p: nat, row: nat)
    requires
        p % 2 == 1,
        !is_present(present, right_child_of(p) as int),
        p < row <= right_child_of(p),
    ensures
        glyph_at(present, row, depth_of(p)) == Glyph::Blank,
{
    lemma_children(p);
    assert(node_over(row, depth_of(p)) == p);
}

/// A connector needs two nodes: where one node at most is present, every
/// cell is blank but the one that holds its label.
pub proof fn lemma_lone_node(present: Seq<bool>, node: nat, row: nat, col: nat)
    requires
        forall|i: int| is_present(present, i) ==> i == node,
    ensures
        glyph_at(present, row, col) == if is_present(present, node as int) && row == node && col
            == depth_of(node) {
            Glyph::Label
        } else {
            Glyph::Blank
        },
{
    let p = node_over(row, col);
    lemma_label_glyph(present, row, col);
    lemma_depth_of_node_over(row, col);
    if is_present(present, p as int) && col > 0 {
        lemma_children(p);
    }
}

/// Blank cells join to one blank run.
pub proof fn lemma_join_blanks(row: Seq<Seq<char>>, width: nat)
    requires
        forall|c: int| 0 <= c < row.len() ==> #[trigger] row[c] == blank_text(width),
    ensures
        join(row) == blank_text(row.len() * width),
    decreases row.len(),
{
    let n = row.len() as int;
    let w = width as int;
    if n > 0 {
        let front = row.drop_last();
        assert forall|c: int| 0 <= c < front.len() implies #[trigger] front[c] == blank_text(
            width,
        ) by {
            assert(front[c] == row[c]);
        }
        lemma_join_blanks(front, width);
        assert(row[n - 1] == blank_text(width));
        assert((n - 1) * w + w == n * w) by (nonlinear_arith);
        assert(0 <= (n - 1) * w) by (nonlinear_arith)
            requires
                n >= 1,
                w >= 0,
        ;
        assert(join(row) =~= blank_text(row.len() * width));
    } else {
        assert(0 * w == 0);
        assert(join(row) =~= blank_text(row.len() * width));
    }
}

/// Where no node is present there is no column.
pub proof fn lemma_no_columns(present: Seq<bool>)
    requires
        forall|i: int| 0 <= i < present.len() ==> !present[i],
    ensures
        column_count(present) == 0,
    decreases present.len(),
{
    if present.len() > 0 {
        lemma_no_columns(present.drop_last());
    }
}

/// The cells of a lone node: where the last row alone holds a node, all rows
/// before it are blank, and its own row is blank up to its label, which is
/// the last cell.
pub proof fn lemma_lone_node_cells(present: Seq<bool>, row: int)
    requires
        present.len() > 0,
        forall|i: int| 0 <= i < present.len() ==> present[i] == (i == present.len() - 1),
        0 <= row < present.len(),
    ensures
        ({
            let node = (present.len() - 1) as nat;
            let width = label_width(node);
            let level = depth_of(node);
            &&& column_count(present) == level + 1
            &&& row < node ==> line_text(diagram(present)[row]) == seq!['\n']
            &&& row == node ==> line_text(diagram(present)[row]) == (blank_text(level * width)
                + label_text(node, width)).push('\n')
        }),
{
    let node = (present.len() - 1) as nat;
    let width = label_width(node);
    let level = depth_of(node);
    let cols = column_count(present);
    lemma_no_columns(present.drop_last());
    assert(cols == level + 1);
    let cells = diagram(present)[row];
    assert forall|c: int| 0 <= c < cols implies #[trigger] cells[c] == if row == node && c
        == level {
        label_text(node, width)
    } else {
        blank_text(width)
    } by {
        lemma_lone_node(present, node, row as nat, c as nat);
    }
    lemma_label_text(node, width);
    if row < node {
        lemma_join_blanks(cells, width);
        lemma_trim_end_of_whitespace(join(cells));
    } else {
        let front = cells.drop_last();
        lemma_join_blanks(front, width);
        let joined = join(cells);
        assert(joined == blank_text(level * width) + label_text(node, width));
        assert(joined.last() == label_text(node, width).last());
        assert(trim_end(joined) == joined);
    }
}

/// Trimming loses no glyph: wherever the diagram shows anything but a blank,
/// the line of that row holds the text of the cell, at the place of its
/// column.
pub proof fn lemma_line_holds_glyph(present: Seq<bool>, row: nat, col: nat)
    requires
        row < present.len(),
        col < column_count(present),
        glyph_at(present, row, col) != Glyph::Blank,
    ensures
        ({
            let width = label_width((present.len() - 1) as nat);
            let line = line_text(diagram(present)[row as int]);
            let from = col * width as int;
            &&& 0 <= from
            &&& from + width < line.len()
            &&& line.subrange(from, from + width) == diagram(present)[row as int][col as int]
        }),
{
    let width = label_width((present.len() - 1) as nat);
    let cells = diagram(present)[row as int];
    let cell = cells[col as int];
    let from = col * width as int;
    let to = from + width;
    lemma_diagram_cells(present);
    assert(uniform(cells, width));
    lemma_join_uniform(cells, width, col as int);
    assert((col + 1) * width == to) by (nonlinear_arith)
        requires
            from == col * width,
            to == from + width,
    ;
    lemma_decimal_len_monotonic(row, (present.len() - 1) as nat);
    lemma_glyph_text(glyph_at(present, row, col), row, width);
    let joined = join(cells);
    assert(joined.subrange(from, to) == cell);
    assert(joined.subrange(from, to)[width - 1] == joined[to - 1]);
    assert(!is_whitespace(joined[to - 1]));
    lemma_trim_end(joined);
    assert(to - 1 < trim_end(joined).len());
    assert(line_text(cells).subrange(from, to) == joined.subrange(from, to));
}

} // verus!
