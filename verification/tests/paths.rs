use print_flat_tree::add_path;
use print_flat_tree::path::Direction;

fn blank_matrix(rows: usize, cols: usize) -> Vec<Vec<String>> {
    vec![vec!["  ".to_string(); cols]; rows]
}

fn texts(matrix: &[Vec<String>]) -> Vec<Vec<&str>> {
    matrix.iter().map(|row| row.iter().map(|cell| cell.as_str()).collect()).collect()
}

#[test]
fn add_path_draws_a_corner_beside_a_left_child() {
    let list = [true, true, true];
    let mut matrix = blank_matrix(3, 2);
    add_path(&list, &mut matrix, 0, 1, 1, Direction::Down);
    assert_eq!(
        texts(&matrix),
        vec![vec!["  ", "─┐"], vec!["  ", "  "], vec!["  ", "  "]]
    );
}

#[test]
fn add_path_draws_a_corner_beside_a_right_child() {
    let list = [true, true, true];
    let mut matrix = blank_matrix(3, 2);
    add_path(&list, &mut matrix, 2, 1, 1, Direction::Up);
    assert_eq!(
        texts(&matrix),
        vec![vec!["  ", "  "], vec!["  ", "  "], vec!["  ", "─┘"]]
    );
}

#[test]
fn add_path_draws_bars_in_the_rows_between() {
    let list = [false, true, false, true, false, true];
    let mut down = blank_matrix(6, 3);
    add_path(&list, &mut down, 1, 3, 2, Direction::Down);
    assert_eq!(
        texts(&down),
        vec![
            vec!["  ", "  ", "  "],
            vec!["  ", "  ", "─┐"],
            vec!["  ", "  ", " │"],
            vec!["  ", "  ", "  "],
            vec!["  ", "  ", "  "],
            vec!["  ", "  ", "  "],
        ]
    );
    let mut up = blank_matrix(6, 3);
    add_path(&list, &mut up, 5, 3, 2, Direction::Up);
    assert_eq!(
        texts(&up),
        vec![
            vec!["  ", "  ", "  "],
            vec!["  ", "  ", "  "],
            vec!["  ", "  ", "  "],
            vec!["  ", "  ", "  "],
            vec!["  ", "  ", " │"],
            vec!["  ", "  ", "─┘"],
        ]
    );
}

#[test]
fn add_path_fills_the_columns_up_to_the_parent() {
    let list = [true, false, false, true];
    let mut matrix = blank_matrix(4, 4);
    add_path(&list, &mut matrix, 0, 3, 4, Direction::Down);
    assert_eq!(
        texts(&matrix),
        vec![
            vec!["  ", "─┐", "──", "──"],
            vec!["  ", " │", "  ", "  "],
            vec!["  ", " │", "  ", "  "],
            vec!["  ", "  ", "  ", "  "],
        ]
    );
}

#[test]
fn add_path_of_an_absent_child_draws_nothing() {
    let list = [false, true, true];
    let mut matrix = blank_matrix(3, 2);
    add_path(&list, &mut matrix, 0, 1, 1, Direction::Down);
    assert_eq!(matrix, blank_matrix(3, 2));
}

#[test]
fn add_path_keeps_the_other_cells() {
    let list = [true, true, true];
    let mut matrix = vec![
        vec![" 0".to_string(), "ab".to_string()],
        vec!["cd".to_string(), " 1".to_string()],
        vec![" 2".to_string(), "ef".to_string()],
    ];
    add_path(&list, &mut matrix, 2, 1, 1, Direction::Up);
    assert_eq!(
        texts(&matrix),
        vec![vec![" 0", "ab"], vec!["cd", " 1"], vec![" 2", "─┘"]]
    );
}

#[test]
fn add_path_pads_to_the_width_of_the_last_row() {
    let mut list = vec![false; 11];
    list[8] = true;
    list[9] = true;
    let mut matrix = vec![vec!["   ".to_string(); 2]; 11];
    add_path(&list, &mut matrix, 8, 9, 1, Direction::Down);
    assert_eq!(matrix[8][1], "──┐");
    let mut wide = vec![false; 101];
    wide[100] = true;
    wide[97] = true;
    let mut matrix = vec![vec!["    ".to_string(); 3]; 101];
    add_path(&wide, &mut matrix, 100, 97, 1, Direction::Up);
    assert_eq!(matrix[100][1], "───┘");
    assert_eq!(matrix[99][1], "   │");
    assert_eq!(matrix[98][1], "   │");
    assert_eq!(matrix[97][1], "    ");
}
