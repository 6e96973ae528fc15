//! From a matrix of cells to the text of the diagram: every row becomes one
//! line, its cells joined, trailing whitespace dropped.

use vstd::prelude::*;

verus! {

/// Whether `c` is whitespace as Unicode defines it (`White_Space`), which is
/// what `char::is_whitespace` tests.
pub open spec fn is_whitespace(c: char) -> bool {
    ||| '\u{9}' <= c <= '\u{D}'
    ||| c == ' '
    ||| c == '\u{85}'
    ||| c == '\u{A0}'
    ||| c == '\u{1680}'
    ||| '\u{2000}' <= c <= '\u{200A}'
    ||| c == '\u{2028}'
    ||| c == '\u{2029}'
    ||| c == '\u{202F}'
    ||| c == '\u{205F}'
    ||| c == '\u{3000}'
}

/// `s` without the whitespace at its end.
pub open spec fn trim_end(s: Seq<char>) -> Seq<char>
    decreases s.len(),
{
    if s.len() > 0 && is_whitespace(s.last()) {
        trim_end(s.drop_last())
    } else {
        s
    }
}

/// The texts of a row of cells.
pub open spec fn row_texts(row: Seq<String>) -> Seq<Seq<char>> {
    Seq::new(row.len(), |c: int| row[c]@)
}

/// The texts of all cells of a matrix, row by row.
pub open spec fn cells(matrix: Seq<Vec<String>>) -> Seq<Seq<Seq<char>>> {
    Seq::new(matrix.len(), |r: int| row_texts(matrix[r]@))
}

/// The cells of a row, one after the other.
pub open spec fn join(row: Seq<Seq<char>>) -> Seq<char>
    decreases row.len(),
{
    if row.len() == 0 {
        Seq::empty()
    } else {
        join(row.drop_last()) + row.last()
    }
}

/// The line of a row: its cells joined, without trailing whitespace, closed
/// by a line feed.
pub open spec fn line_text(row: Seq<Seq<char>>) -> Seq<char> {
    trim_end(join(row)).push('\n')
}

/// The lines of all rows, in order.
pub open spec fn lines_text(rows: Seq<Seq<Seq<char>>>) -> Seq<char>
    decreases rows.len(),
{
    if rows.len() == 0 {
        Seq::empty()
    } else {
        lines_text(rows.drop_last()) + line_text(rows.last())
    }
}

/// The number of lines of `text`: its line feeds.
pub open spec fn line_count(text: Seq<char>) -> nat
    decreases text.len(),
{
    if text.len() == 0 {
        0
    } else if text.last() == '\n' {
        line_count(text.drop_last()) + 1
    } else {
        line_count(text.drop_last())
    }
}

/// Whether `s` holds no line feed.
pub open spec fn feed_free(s: Seq<char>) -> bool {
    forall|i: int| 0 <= i < s.len() ==> s[i] != '\n'
}

/// Whether every cell of `row` has `width` characters.
pub open spec fn uniform(row: Seq<Seq<char>>, width: nat) -> bool {
    forall|c: int| 0 <= c < row.len() ==> (#[trigger] row[c]).len() == width
}

/// Tests whether a character is Unicode whitespace.
pub fn is_space(c: char) -> (b: bool)
    ensures
        b == is_whitespace(c),
{
    ('\u{9}' <= c && c <= '\u{D}') || c == ' ' || c == '\u{85}' || c == '\u{A0}' || c
        == '\u{1680}' || ('\u{2000}' <= c && c <= '\u{200A}') || c == '\u{2028}' || c
        == '\u{2029}' || c == '\u{202F}' || c == '\u{205F}' || c == '\u{3000}'
}

/// Joins the cells of a row into one sequence of characters.
pub fn join_row(row: &Vec<String>) -> (line: Vec<char>)
    ensures
        line@ == join(row_texts(row@)),
{
    let mut line: Vec<char> = Vec::new();
    for c in 0..row.len()
        invariant
            line@ == join(row_texts(row@).take(c as int)),
    {
        let ghost before = line@;
        let cell: &str = row[c].as_str();
        for ch in it: cell.chars()
            invariant
                it.seq() == cell@,
                line@ == before + cell@.take(it.index() as int),
        {
            line.push(ch);
        }
        proof {
            let texts = row_texts(row@);
            assert(texts.take(c + 1).drop_last() == texts.take(c as int));
            assert(cell@.take(cell@.len() as int) == cell@);
        }
    }
    assert(row_texts(row@).take(row.len() as int) == row_texts(row@));
    line
}

/// Drops the whitespace at the end of a line.
pub fn trim_line(line: &mut Vec<char>)
    ensures
        final(line)@ == trim_end(old(line)@),
{
    while line.len() > 0 && is_space(line[line.len() - 1])
        invariant
            trim_end(line@) == trim_end(old(line)@),
        decreases line.len(),
    {
        line.pop();
    }
}

/// Turns a matrix of cells into text: one line per row, in row order.
pub fn serialize(matrix: &Vec<Vec<String>>) -> (text: String)
    ensures
        text@ == lines_text(cells(matrix@)),
{
    let mut text = String::new();
    for r in 0..matrix.len()
        invariant
            text@ == lines_text(cells(matrix@).take(r as int)),
    {
        let mut line = join_row(&matrix[r]);
        trim_line(&mut line);
        let ghost before = text@;
        for k in 0..line.len()
            invariant
                text@ == before + line@.take(k as int),
        {
            text.push(line[k]);
        }
        text.push('\n');
        proof {
            let rows = cells(matrix@);
            assert(rows.take(r + 1).drop_last() == rows.take(r as int));
            assert(line@.take(line@.len() as int) == line@);
        }
    }
    assert(cells(matrix@).take(matrix.len() as int) == cells(matrix@));
    text
}

/// The lines of two texts add up.
pub proof fn lemma_line_count_add(a: Seq<char>, b: Seq<char>)
    ensures
        line_count(a + b) == line_count(a) + line_count(b),
    decreases b.len(),
{
    if b.len() == 0 {
        assert(a + b == a);
    } else {
        assert((a + b).drop_last() == a + b.drop_last());
        lemma_line_count_add(a, b.drop_last());
    }
}

/// A text without line feeds has no lines.
pub proof fn lemma_feed_free_count(s: Seq<char>)
    requires
        feed_free(s),
    ensures
        line_count(s) == 0,
    decreases s.len(),
{
    if s.len() > 0 {
        lemma_feed_free_count(s.drop_last());
    }
}

/// Trimming keeps a front part of the text, which reaches past every
/// character that is not whitespace and does not end in whitespace.
pub proof fn lemma_trim_end(s: Seq<char>)
    ensures
        trim_end(s).len() <= s.len(),
        trim_end(s) == s.take(trim_end(s).len() as int),
        trim_end(s).len() > 0 ==> !is_whitespace(trim_end(s).last()),
        forall|i: int| 0 <= i < s.len() && !is_whitespace(#[trigger] s[i]) ==> i < trim_end(s).len(),
    decreases s.len(),
{
    if s.len() > 0 && is_whitespace(s.last()) {
        let front = s.drop_last();
        lemma_trim_end(front);
        assert(front.take(trim_end(front).len() as int) == s.take(trim_end(front).len() as int));
        assert forall|i: int| 0 <= i < s.len() && !is_whitespace(#[trigger] s[i]) implies i
            < trim_end(s).len() by {
            assert(front[i] == s[i]);
        }
    } else {
        assert(s.take(s.len() as int) == s);
    }
}

/// Joined cells without line feeds hold none.
pub proof fn lemma_join_feed_free(row: Seq<Seq<char>>)
    requires
        forall|c: int| 0 <= c < row.len() ==> feed_free(#[trigger] row[c]),
    ensures
        feed_free(join(row)),
    decreases row.len(),
{
    if row.len() > 0 {
        let front = row.drop_last();
        assert forall|c: int| 0 <= c < front.len() implies feed_free(#[trigger] front[c]) by {
            assert(front[c] == row[c]);
        }
        lemma_join_feed_free(front);
        assert(feed_free(row[row.len() - 1]));
    }
}

/// In a row of cells of one width, every cell stands at its column times
/// that width.
pub proof fn lemma_join_uniform(row: Seq<Seq<char>>, width: nat, col: int)
    requires
        uniform(row, width),
        0 <= col < row.len(),
    ensures
        join(row).len() == row.len() * width,
        0 <= col * width,
        (col + 1) * width <= join(row).len(),
        join(row).subrange(col * width, (col + 1) * width) == row[col],
    decreases row.len(),
{
    let front = row.drop_last();
    let n = row.len() as int;
    let w = width as int;
    assert(uniform(front, width)) by {
        assert forall|c: int| 0 <= c < front.len() implies (#[trigger] front[c]).len()
            == width by {
            assert(front[c] == row[c]);
        }
    }
    assert((n - 1) * w + w == n * w) by (nonlinear_arith);
    assert(0 <= col * w && (col + 1) * w == col * w + w && (col + 1) * w <= n * w)
        by (nonlinear_arith)
        requires
            0 <= col < n,
            0 <= w,
    ;
    lemma_join_len(front, width);
    assert(row[n - 1].len() == width);
    if col == n - 1 {
        assert(join(row).subrange(col * w, (col + 1) * w) == row[col]);
    } else {
        lemma_join_uniform(front, width, col);
        assert(join(row).subrange(col * w, (col + 1) * w) == join(front).subrange(
            col * w,
            (col + 1) * w,
        ));
    }
}

/// A row of cells of one width is as long as its cells together.
pub proof fn lemma_join_len(row: Seq<Seq<char>>, width: nat)
    requires
        uniform(row, width),
    ensures
        join(row).len() == row.len() * width,
    decreases row.len(),
{
    let n = row.len() as int;
    let w = width as int;
    if n > 0 {
        let front = row.drop_last();
        assert forall|c: int| 0 <= c < front.len() implies (#[trigger] front[c]).len()
            == width by {
            assert(front[c] == row[c]);
        }
        lemma_join_len(front, width);
        assert((n - 1) * w + w == n * w) by (nonlinear_arith);
        assert(row[n - 1].len() == width);
    } else {
        assert(0 * w == 0);
    }
}

/// A matrix whose cells hold no line feed becomes as many lines as it has
/// rows.
pub proof fn lemma_lines_count(rows: Seq<Seq<Seq<char>>>)
    requires
        forall|r: int, c: int|
            0 <= r < rows.len() && 0 <= c < rows[r].len() ==> feed_free(#[trigger] rows[r][c]),
    ensures
        line_count(lines_text(rows)) == rows.len(),
    decreases rows.len(),
{
    if rows.len() > 0 {
        let front = rows.drop_last();
        let row = rows.last();
        assert forall|r: int, c: int| 0 <= r < front.len() && 0 <= c < front[r].len() implies feed_free(
            #[trigger] front[r][c],
        ) by {
            assert(front[r][c] == rows[r][c]);
        }
        lemma_lines_count(front);
        assert forall|c: int| 0 <= c < row.len() implies feed_free(#[trigger] row[c]) by {
            assert(row[c] == rows[rows.len() - 1][c]);
        }
        lemma_join_feed_free(row);
        lemma_trim_end(join(row));
        let kept = trim_end(join(row));
        assert(feed_free(kept));
        lemma_feed_free_count(kept);
        assert(line_text(row).drop_last() == kept);
        lemma_line_count_add(lines_text(front), line_text(row));
    }
}

/// Nothing is left of a text that is whitespace throughout.
pub proof fn lemma_trim_end_of_whitespace(s: Seq<char>)
    requires
        forall|i: int| 0 <= i < s.len() ==> is_whitespace(#[trigger] s[i]),
    ensures
        trim_end(s) == Seq::<char>::empty(),
    decreases s.len(),
{
    if s.len() > 0 {
        assert(is_whitespace(s[s.len() - 1]));
        let front = s.drop_last();
        assert forall|i: int| 0 <= i < front.len() implies is_whitespace(#[trigger] front[i]) by {
            assert(front[i] == s[i]);
        }
        lemma_trim_end_of_whitespace(front);
    }
}

/// Rows that leave nothing but the line feed give as many empty lines.
pub proof fn lemma_lines_of_empty_rows(rows: Seq<Seq<Seq<char>>>)
    requires
        forall|r: int| 0 <= r < rows.len() ==> line_text(#[trigger] rows[r]) == seq!['\n'],
    ensures
        lines_text(rows) == Seq::new(rows.len(), |r: int| '\n'),
    decreases rows.len(),
{
    if rows.len() > 0 {
        let front = rows.drop_last();
        assert forall|r: int| 0 <= r < front.len() implies line_text(#[trigger] front[r])
            == seq!['\n'] by {
            assert(front[r] == rows[r]);
        }
        lemma_lines_of_empty_rows(front);
        assert(line_text(rows[rows.len() - 1]) == seq!['\n']);
        assert(lines_text(rows) =~= Seq::new(rows.len(), |r: int| '\n'));
    } else {
        assert(lines_text(rows) =~= Seq::new(rows.len(), |r: int| '\n'));
    }
}

} // verus!
