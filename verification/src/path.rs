//! Connectors: the glyphs that lead from a child's row to its parent's.

use vstd::prelude::*;
use crate::cell::{glyph_text, label_width, pad, width_for, Glyph, DOWN, LEFT, TURN_DOWN, TURN_UP};
use crate::tree::depth_of;

verus! {

/// On which side of its parent a child lies, and so which way its connector
/// turns.
#[derive(Clone, Copy, Debug, PartialEq, Eq, Structural)]
pub enum Direction {
    /// The child's row is above the parent's: the connector runs down.
    Down,
    /// The child's row is below the parent's: the connector runs up.
    Up,
}

/// The corner that a connector in direction `dir` starts with.
pub open spec fn turn_of(dir: Direction) -> Glyph {
    match dir {
        Direction::Down => Glyph::TurnDown,
        Direction::Up => Glyph::TurnUp,
    }
}

/// Whether `row` lies strictly between a child and its parent.
pub open spec fn strictly_between(child: nat, parent: nat, dir: Direction, row: nat) -> bool {
    match dir {
        Direction::Down => child < row < parent,
        Direction::Up => parent < row < child,
    }
}

/// What the connector from `child` to `parent` puts into the cell at
/// (`row`, `col`), if anything. The connector leaves the child's row in the
/// column after the child's own: a corner there, a horizontal run from the
/// next column up to the parent's, and a vertical bar under (or over) the
/// corner in every row strictly between the two.
pub open spec fn path_glyph(
    child: nat,
    parent: nat,
    parent_depth: nat,
    dir: Direction,
    row: nat,
    col: nat,
) -> Option<Glyph> {
    let ptr = depth_of(child) + 1;
    if row == child && col == ptr {
        Some(turn_of(dir))
    } else if row == child && ptr < col < parent_depth {
        Some(Glyph::Fill)
    } else if col == ptr && strictly_between(child, parent, dir, row) {
        Some(Glyph::Bar)
    } else {
        None
    }
}

/// The text of the cell at (`row`, `col`) once the connector from `child` to
/// `parent` is drawn over a cell that held `before`. Nothing is drawn for a
/// child that is not present.
pub open spec fn path_cell(
    list: Seq<bool>,
    child: nat,
    parent: nat,
    parent_depth: nat,
    dir: Direction,
    row: nat,
    col: nat,
    before: Seq<char>,
) -> Seq<char> {
    if list[child as int] {
        match path_glyph(child, parent, parent_depth, dir, row, col) {
            Some(glyph) => glyph_text(glyph, row, label_width((list.len() - 1) as nat)),
            None => before,
        }
    } else {
        before
    }
}

/// Draws the connector from `child` to `parent` into `matrix`, if `child` is
/// present in `list`; `parent_depth` is the parent's column. All other cells
/// keep what they held.
pub fn add_path(
    list: &[bool],
    matrix: &mut Vec<Vec<String>>,
    child: usize,
    parent: usize,
    parent_depth: usize,
    dir: Direction,
)
    requires
        old(matrix).len() == list.len(),
        child < list.len(),
        parent < list.len(),
        dir == Direction::Down ==> child < parent,
        dir == Direction::Up ==> parent < child,
        list[child as int] ==> parent_depth <= old(matrix)[child as int].len(),
        list[child as int] ==> forall|r: int|
            child <= r < parent || parent < r <= child ==> depth_of(child as nat) + 1 < (
            #[trigger] old(matrix)[r]).len(),
    ensures
        final(matrix).len() == old(matrix).len(),
        forall|r: int|
            0 <= r < old(matrix).len() ==> (#[trigger] final(matrix)[r]).len() == old(
                matrix,
            )[r].len(),
        forall|r: int, c: int|
            0 <= r < old(matrix).len() && 0 <= c < old(matrix)[r].len() ==> (
            #[trigger] final(matrix)[r][c])@ == path_cell(
                list@,
                child as nat,
                parent as nat,
                parent_depth as nat,
                dir,
                r as nat,
                c as nat,
                old(matrix)[r][c]@,
            ),
{
    if !list[child] {
        return ;
    }
    let depth = flat_tree::depth(child);
    let width = width_for(list.len() - 1);
    let ptr = depth + 1;
    let ghost start = matrix@;

    let mut i = ptr;
    while i < parent_depth
        invariant
            ptr <= i,
            i <= parent_depth || i == ptr,
            ptr == depth + 1,
            depth == depth_of(child as nat),
            child < matrix.len(),
            matrix.len() == start.len(),
            parent_depth <= start[child as int].len(),
            width == label_width((list.len() - 1) as nat),
            forall|r: int| 0 <= r < start.len() ==> (#[trigger] matrix[r]).len() == start[r].len(),
            forall|r: int, c: int|
                0 <= r < start.len() && 0 <= c < start[r].len() ==> (#[trigger] matrix[r][c])@
                    == if r == child && ptr <= c < i {
                    glyph_text(Glyph::Fill, r as nat, width as nat)
                } else {
                    start[r][c]@
                },
        decreases parent_depth - i,
    {
        matrix[child][i] = pad(LEFT, LEFT, width);
        i += 1;
    }

    let turn_char = match dir {
        Direction::Up => TURN_UP,
        Direction::Down => TURN_DOWN,
    };
    let ghost filled = matrix@;
    matrix[child][ptr] = pad(turn_char, LEFT, width);
    let ghost turned = matrix@;
    assert(turned.len() == start.len());
    assert forall|r: int| 0 <= r < start.len() implies (#[trigger] turned[r]).len()
        == start[r].len() by {}
    assert forall|r: int, c: int| 0 <= r < start.len() && 0 <= c < start[r].len() implies (
    #[trigger] turned[r][c])@ == if r == child && c == ptr {
        glyph_text(turn_of(dir), r as nat, width as nat)
    } else if r == child && ptr < c < parent_depth {
        glyph_text(Glyph::Fill, r as nat, width as nat)
    } else {
        start[r][c]@
    } by {
        assert(turned[r][c] == matrix[r][c]);
        if !(r == child && c == ptr) {
            assert(turned[r][c] == filled[r][c]);
        }
    }

    match dir {
        Direction::Down => {
            let mut row = child + 1;
            while row < parent
                invariant
                    child < row <= parent,
                    parent < start.len(),
                    matrix.len() == start.len(),
                    turned.len() == start.len(),
                    forall|r: int|
                        0 <= r < start.len() ==> (#[trigger] turned[r]).len() == start[r].len(),
                    forall|r: int|
                        0 <= r < start.len() ==> (#[trigger] matrix[r]).len() == start[r].len(),
                    forall|r: int|
                        child <= r < parent ==> ptr < (#[trigger] start[r]).len(),
                    forall|r: int, c: int|
                        0 <= r < start.len() && 0 <= c < start[r].len() ==> (
                        #[trigger] matrix[r][c])@ == if c == ptr && child < r < row {
                            glyph_text(Glyph::Bar, r as nat, width as nat)
                        } else {
                            turned[r][c]@
                        },
                decreases parent - row,
            {
                matrix[row][ptr] = pad(DOWN, ' ', width);
                row += 1;
            }
        },
        Direction::Up => {
            let mut row = child - 1;
            while row > parent
                invariant
                    parent <= row < child,
                    child < start.len(),
                    matrix.len() == start.len(),
                    turned.len() == start.len(),
                    forall|r: int|
                        0 <= r < start.len() ==> (#[trigger] turned[r]).len() == start[r].len(),
                    forall|r: int|
                        0 <= r < start.len() ==> (#[trigger] matrix[r]).len() == start[r].len(),
                    forall|r: int|
                        parent < r <= child ==> ptr < (#[trigger] start[r]).len(),
                    forall|r: int, c: int|
                        0 <= r < start.len() && 0 <= c < start[r].len() ==> (
                        #[trigger] matrix[r][c])@ == if c == ptr && row < r < child {
                            glyph_text(Glyph::Bar, r as nat, width as nat)
                        } else {
                            turned[r][c]@
                        },
                decreases row - parent,
            {
                matrix[row][ptr] = pad(DOWN, ' ', width);
                row -= 1;
            }
        },
    }
}

} // verus!
