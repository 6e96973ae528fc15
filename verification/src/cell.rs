//! The text of single cells: padded glyphs, blanks and right-justified labels.

use vstd::prelude::*;
use crate::text::{feed_free, is_whitespace};

verus! {

/// The vertical bar that runs between a corner and the parent's row.
pub const DOWN: char = '│';

/// The horizontal stroke that leads from a child towards its parent.
pub const LEFT: char = '─';

/// The corner above a parent: the connector turns down.
pub const TURN_DOWN: char = '┐';

/// The corner below a parent: the connector turns up.
pub const TURN_UP: char = '┘';

/// `String::push` appends one character to the end of the string.
pub assume_specification[ String::push ](s: &mut String, c: char)
    ensures
        final(s)@ == old(s)@.push(c),
;

/// What a cell of the matrix shows.
#[derive(Clone, Copy, Debug, PartialEq, Eq, Structural)]
pub enum Glyph {
    /// Nothing.
    Blank,
    /// The index of the row's node.
    Label,
    /// A horizontal run that carries a connector towards the parent's column.
    Fill,
    /// The corner of a left child: the connector turns down to the parent.
    TurnDown,
    /// The corner of a right child: the connector turns up to the parent.
    TurnUp,
    /// The vertical run between a corner and the parent's row.
    Bar,
}

/// A cell of `width` characters: `fill` throughout, `symbol` last.
pub open spec fn pad_text(symbol: char, fill: char, width: nat) -> Seq<char> {
    Seq::new(
        width,
        |i: int|
            if i == width - 1 {
                symbol
            } else {
                fill
            },
    )
}

/// An empty cell: `width` spaces.
pub open spec fn blank_text(width: nat) -> Seq<char> {
    Seq::new(width, |i: int| ' ')
}

/// The character of the decimal digit `d`.
pub open spec fn digit_char(d: nat) -> char {
    (48 + d) as char
}

/// Whether `c` is one of the ten decimal digits.
pub open spec fn is_digit(c: char) -> bool {
    '0' <= c <= '9'
}

/// The decimal form of `n`, without sign or leading zeros.
pub open spec fn decimal(n: nat) -> Seq<char>
    decreases n,
{
    if n < 10 {
        seq![digit_char(n)]
    } else {
        decimal(n / 10).push(digit_char(n % 10))
    }
}

/// The decimal form of `n`, moved to the right edge of a cell of `width`
/// characters by spaces in front. A number too long for the cell stands
/// unpadded.
pub open spec fn label_text(n: nat, width: nat) -> Seq<char> {
    if decimal(n).len() >= width {
        decimal(n)
    } else {
        blank_text((width - decimal(n).len()) as nat) + decimal(n)
    }
}

/// The width of every cell of a diagram whose largest index is `max_index`:
/// the digits of that index and one column of padding.
pub open spec fn label_width(max_index: nat) -> nat {
    decimal(max_index).len() + 1
}

/// The text of a glyph in row `row`, in cells of `width` characters.
pub open spec fn glyph_text(glyph: Glyph, row: nat, width: nat) -> Seq<char> {
    match glyph {
        Glyph::Blank => blank_text(width),
        Glyph::Label => label_text(row, width),
        Glyph::Fill => pad_text(LEFT, LEFT, width),
        Glyph::TurnDown => pad_text(TURN_DOWN, LEFT, width),
        Glyph::TurnUp => pad_text(TURN_UP, LEFT, width),
        Glyph::Bar => pad_text(DOWN, ' ', width),
    }
}

/// Builds a cell of `width` characters that ends in `symbol` and is filled
/// with `pad_char` before it.
pub fn pad(symbol: char, pad_char: char, width: usize) -> (cell: String)
    ensures
        cell@ == pad_text(symbol, pad_char, width as nat),
{
    let mut cell = String::new();
    for i in 0..width
        invariant
            cell@ == pad_text(symbol, pad_char, width as nat).take(i as int),
    {
        if i == width - 1 {
            cell.push(symbol);
        } else {
            cell.push(pad_char);
        }
    }
    cell
}

/// Builds an empty cell of `width` spaces.
pub fn blank(width: usize) -> (cell: String)
    ensures
        cell@ == blank_text(width as nat),
{
    proof {
        lemma_blank_is_pad(width as nat);
    }
    pad(' ', ' ', width)
}

fn digit(d: usize) -> (c: char)
    requires
        d < 10,
    ensures
        c == digit_char(d as nat),
{
    (48u8 + d as u8) as char
}

/// The decimal digits of `n`.
pub fn decimal_digits(n: usize) -> (digits: Vec<char>)
    ensures
        digits@ == decimal(n as nat),
{
    let mut digits: Vec<char> = Vec::new();
    digits.push(digit(n % 10));
    let mut rest: usize = n / 10;
    while rest > 0
        invariant
            rest > 0 ==> decimal(n as nat) == decimal(rest as nat) + digits@,
            rest == 0 ==> decimal(n as nat) == digits@,
        decreases rest,
    {
        digits.insert(0, digit(rest % 10));
        rest = rest / 10;
    }
    digits
}

/// The width of the cells of a diagram whose largest index is `max_index`.
pub fn width_for(max_index: usize) -> (width: usize)
    ensures
        width == label_width(max_index as nat),
{
    proof {
        lemma_decimal_len(max_index as nat);
    }
    decimal_digits(max_index).len() + 1
}

/// Builds the label of node `n` for a cell of `width` characters.
pub fn label(n: usize, width: usize) -> (cell: String)
    ensures
        cell@ == label_text(n as nat, width as nat),
{
    let digits = decimal_digits(n);
    let mut cell = String::new();
    if digits.len() < width {
        let lead: usize = width - digits.len();
        for i in 0..lead
            invariant
                cell@ == blank_text(i as nat),
        {
            cell.push(' ');
        }
    }
    let ghost front = cell@;
    for i in 0..digits.len()
        invariant
            cell@ == front + digits@.take(i as int),
    {
        cell.push(digits[i]);
    }
    cell
}

/// A blank cell is a padded cell whose symbol and filling are spaces.
pub proof fn lemma_blank_is_pad(width: nat)
    ensures
        pad_text(' ', ' ', width) == blank_text(width),
{
    assert(pad_text(' ', ' ', width) =~= blank_text(width));
}

/// The character of a digit is a digit.
pub proof fn lemma_digit_char(d: nat)
    requires
        d < 10,
    ensures
        is_digit(digit_char(d)),
{
}

/// A decimal form has at least one digit, and no more than a tenth of the
/// number and one.
pub proof fn lemma_decimal_len(n: nat)
    ensures
        1 <= decimal(n).len() <= 1 + n / 10,
    decreases n,
{
    if n >= 10 {
        lemma_decimal_len(n / 10);
    }
}

/// A decimal form holds digits only.
pub proof fn lemma_decimal_digits(n: nat)
    ensures
        forall|i: int| 0 <= i < decimal(n).len() ==> is_digit(#[trigger] decimal(n)[i]),
    decreases n,
{
    lemma_digit_char(n % 10);
    if n >= 10 {
        lemma_decimal_digits(n / 10);
    }
    assert forall|i: int| 0 <= i < decimal(n).len() implies is_digit(
        #[trigger] decimal(n)[i],
    ) by {
        if n >= 10 && i < decimal(n / 10).len() {
            assert(decimal(n)[i] == decimal(n / 10)[i]);
        }
    }
}

/// A larger number has no shorter decimal form.
pub proof fn lemma_decimal_len_monotonic(a: nat, b: nat)
    requires
        a <= b,
    ensures
        decimal(a).len() <= decimal(b).len(),
    decreases b,
{
    lemma_decimal_len(a);
    lemma_decimal_len(b);
    if a >= 10 {
        lemma_decimal_len_monotonic(a / 10, b / 10);
    }
}

/// A label that fits its cell fills it: spaces first, then the digits of the
/// number, the last of them at the right edge.
pub proof fn lemma_label_text(n: nat, width: nat)
    requires
        decimal(n).len() <= width,
    ensures
        label_text(n, width).len() == width,
        is_digit(label_text(n, width).last()),
        forall|i: int|
            0 <= i < width ==> {
                let c = #[trigger] label_text(n, width)[i];
                i < width - decimal(n).len() && c == ' ' || i >= width - decimal(n).len() && c
                    == decimal(n)[i - (width - decimal(n).len())]
            },
{
    lemma_decimal_len(n);
    lemma_decimal_digits(n);
    let digits = decimal(n);
    assert(is_digit(digits[digits.len() - 1]));
}

/// The text of a glyph fills its cell and holds no line feed, and every
/// glyph but the blank ends in a character that is not whitespace.
pub proof fn lemma_glyph_text(glyph: Glyph, row: nat, width: nat)
    requires
        decimal(row).len() < width,
    ensures
        glyph_text(glyph, row, width).len() == width,
        feed_free(glyph_text(glyph, row, width)),
        glyph != Glyph::Blank ==> !is_whitespace(glyph_text(glyph, row, width).last()),
{
    lemma_label_text(row, width);
    lemma_decimal_digits(row);
    let text = glyph_text(glyph, row, width);
    assert forall|i: int| 0 <= i < text.len() implies text[i] != '\n' by {
        if glyph == Glyph::Label {
            let c = label_text(row, width)[i];
            if i >= width - decimal(row).len() {
                assert(is_digit(decimal(row)[i - (width - decimal(row).len())]));
            }
        }
    }
}

} // verus!
