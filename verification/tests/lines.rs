use print_flat_tree::serialize;
use print_flat_tree::text::{is_space, join_row, trim_line};

fn row(cells: &[&str]) -> Vec<String> {
    cells.iter().map(|cell| cell.to_string()).collect()
}

#[test]
fn serialize_joins_cells_and_ends_every_row_with_a_line_feed() {
    let matrix = vec![row(&[" a", " b"]), row(&[" c", " d"])];
    assert_eq!(serialize(&matrix), " a b\n c d\n");
}

#[test]
fn serialize_strips_trailing_whitespace_only() {
    let matrix = vec![row(&[" a ", "b  ", "   "]), row(&["  ", "  "]), row(&["  ", " x"])];
    assert_eq!(serialize(&matrix), " a b\n\n   x\n");
}

#[test]
fn serialize_strips_every_kind_of_whitespace() {
    let matrix = vec![row(&["a\t", "\u{3000}\u{a0}", "\r\n "]), row(&["\u{2003}b\u{2003}"])];
    assert_eq!(serialize(&matrix), "a\n\u{2003}b\n");
}

#[test]
fn serialize_of_no_rows_is_empty() {
    let matrix: Vec<Vec<String>> = Vec::new();
    assert_eq!(serialize(&matrix), "");
}

#[test]
fn serialize_gives_a_row_without_cells_an_empty_line() {
    let matrix = vec![row(&[]), row(&["x"]), row(&[])];
    assert_eq!(serialize(&matrix), "\nx\n\n");
}

#[test]
fn serialize_agrees_with_the_standard_trimming() {
    let matrix = vec![
        row(&["  0", "──┐", "   "]),
        row(&["   ", "  1", "──┐"]),
        row(&["\u{1680}", " ", "\u{85}"]),
        row(&["é ", " ü", "\u{2028}\u{2029}\u{202f}\u{205f}"]),
    ];
    let mut expected = String::new();
    for cells in &matrix {
        expected.push_str(cells.join("").trim_end());
        expected.push('\n');
    }
    assert_eq!(serialize(&matrix), expected);
}

#[test]
fn join_row_keeps_every_character() {
    assert_eq!(join_row(&row(&[" 0", "─┐", "  "])), vec![' ', '0', '─', '┐', ' ', ' ']);
    assert_eq!(join_row(&row(&[])), Vec::<char>::new());
}

#[test]
fn trim_line_drops_the_whitespace_at_the_end() {
    let mut line = vec![' ', 'a', ' ', '\t', '\u{3000}'];
    trim_line(&mut line);
    assert_eq!(line, vec![' ', 'a']);
    let mut blank = vec![' ', ' '];
    trim_line(&mut blank);
    assert!(blank.is_empty());
    let mut kept = vec!['│'];
    trim_line(&mut kept);
    assert_eq!(kept, vec!['│']);
}

#[test]
fn is_space_is_the_standard_whitespace_test() {
    for code in 0..=0x10ffffu32 {
        if let Some(c) = char::from_u32(code) {
            assert_eq!(is_space(c), c.is_whitespace(), "U+{:04X}", code);
        }
    }
}
