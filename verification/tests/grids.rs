use print_flat_tree::build;
use print_flat_tree::grid::{blank_matrix, columns_of, draw};
use print_flat_tree::presence::{presence_of, rows_of};

fn texts(matrix: &[Vec<String>]) -> Vec<Vec<&str>> {
    matrix.iter().map(|row| row.iter().map(|cell| cell.as_str()).collect()).collect()
}

#[test]
fn rows_of_is_one_more_than_the_largest_index() {
    assert_eq!(rows_of(&[]), 0);
    assert_eq!(rows_of(&[0]), 1);
    assert_eq!(rows_of(&[3, 10, 7]), 11);
    assert_eq!(rows_of(&[usize::MAX - 1]), usize::MAX);
}

#[test]
fn presence_of_marks_the_indices_given() {
    assert_eq!(presence_of(&[]), Vec::<bool>::new());
    assert_eq!(presence_of(&[0]), vec![true]);
    assert_eq!(presence_of(&[1]), vec![false, true]);
    assert_eq!(presence_of(&[4, 1, 1, 2]), vec![false, true, true, false, true]);
}

#[test]
fn columns_of_is_one_more_than_the_highest_level_present() {
    assert_eq!(columns_of(&[]), 0);
    assert_eq!(columns_of(&[false, false]), 0);
    assert_eq!(columns_of(&[true]), 1);
    assert_eq!(columns_of(&[true, true, true]), 2);
    assert_eq!(columns_of(&[false, false, false, true, true]), 3);
    assert_eq!(columns_of(&[true, false, true, false, true, false, true, false]), 1);
}

#[test]
fn blank_matrix_holds_cells_of_spaces() {
    assert_eq!(blank_matrix(0, 3, 2), Vec::<Vec<String>>::new());
    assert_eq!(texts(&blank_matrix(2, 0, 2)), vec![Vec::<&str>::new(), Vec::new()]);
    assert_eq!(texts(&blank_matrix(2, 3, 2)), vec![vec!["  "; 3]; 2]);
    assert_eq!(texts(&blank_matrix(1, 1, 4)), vec![vec!["    "]]);
}

#[test]
fn build_gives_every_index_a_row_and_every_level_a_column() {
    let matrix = build(&[0, 1, 2]);
    assert_eq!(
        texts(&matrix),
        vec![vec![" 0", "─┐"], vec!["  ", " 1"], vec![" 2", "─┘"]]
    );
    let matrix = build(&[0, 1, 2, 3, 7, 8, 9, 10]);
    assert_eq!(matrix.len(), 11);
    for row in &matrix {
        assert_eq!(row.len(), 4);
        for cell in row {
            assert_eq!(cell.chars().count(), 3);
        }
    }
    assert_eq!(
        texts(&matrix[2..5]),
        vec![
            vec!["  2", "──┘", "  │", "   "],
            vec!["   ", "   ", "  3", "──┐"],
            vec!["   ", "   ", "   ", "  │"],
        ]
    );
}

#[test]
fn build_of_no_index_has_no_rows() {
    assert_eq!(build(&[]), Vec::<Vec<String>>::new());
}

#[test]
fn build_has_no_more_columns_than_levels_present() {
    assert_eq!(texts(&build(&[0, 2])), vec![vec![" 0"], vec!["  "], vec![" 2"]]);
    assert_eq!(texts(&build(&[1])), vec![vec!["  ", "  "], vec!["  ", " 1"]]);
}

#[test]
fn draw_takes_the_presence_set() {
    assert_eq!(draw(&[]), Vec::<Vec<String>>::new());
    assert_eq!(texts(&draw(&[false])), vec![Vec::<&str>::new()]);
    assert_eq!(
        texts(&draw(&[true, true, false])),
        vec![vec![" 0", "─┐"], vec!["  ", " 1"], vec!["  ", "  "]]
    );
    assert_eq!(draw(&[true, true, true]), build(&[2, 1, 0]));
}

#[test]
fn draw_puts_one_label_in_the_row_of_each_present_node() {
    let tree = [0usize, 1, 2, 3, 7, 8, 9, 10, 21, 22, 23];
    let matrix = build(&tree);
    for (row, cells) in matrix.iter().enumerate() {
        let labels: Vec<usize> = (0..cells.len())
            .filter(|&col| cells[col].trim_start().parse::<usize>().is_ok())
            .collect();
        if tree.contains(&row) {
            assert_eq!(labels, vec![flat_tree::depth(row)]);
            assert_eq!(cells[labels[0]].trim_start(), row.to_string());
        } else {
            assert!(labels.is_empty());
        }
    }
}
