use print_flat_tree::{can_draw, fmt};

fn lines_of(text: &str) -> Vec<Vec<char>> {
    text.lines().map(|line| line.chars().collect()).collect()
}

#[test]
fn fmt_works_0() {
    let tree = vec![0];
    let result = fmt(&tree);
    assert_eq!(result, " 0\n");
}

#[test]
fn fmt_works_1() {
    let tree = vec![1];
    let result = fmt(&tree);
    assert_eq!(result, "\n   1\n");
}

#[test]
fn fmt_works_0_1_2() {
    let tree = vec![0, 1, 2];
    let result = fmt(&tree);
    assert_eq!(result, " 0─┐\n   1\n 2─┘\n");
}

#[test]
fn fmt_draws_the_reference_diagram() {
    let tree = vec![0, 1, 2, 3, 7, 8, 9, 10];
    let expected = [
        "  0──┐",
        "     1──┐",
        "  2──┘  │",
        "        3──┐",
        "           │",
        "           │",
        "           │",
        "           7",
        "  8──┐",
        "     9",
        " 10──┘",
        "",
    ]
    .join("\n");
    assert_eq!(fmt(&tree), expected);
}

#[test]
fn fmt_of_no_index_is_empty() {
    let tree: Vec<usize> = Vec::new();
    assert_eq!(fmt(&tree), "");
}

#[test]
fn fmt_single_leaf_is_one_line_with_its_label_only() {
    let text = fmt(&[0]);
    assert_eq!(text.matches('\n').count(), 1);
    assert_eq!(text.trim(), "0");
    assert!(!text.contains('─') && !text.contains('│'));
    assert!(!text.contains('┐') && !text.contains('┘'));
}

#[test]
fn fmt_single_inner_node_stands_in_the_second_column() {
    let text = fmt(&[1]);
    let lines = lines_of(&text);
    assert_eq!(lines.len(), 2);
    assert!(lines[0].is_empty());
    assert_eq!(lines[1], vec![' ', ' ', ' ', '1']);
}

#[test]
fn fmt_omits_the_connector_of_a_right_child_past_the_last_row() {
    assert_eq!(fmt(&[0, 1]), " 0─┐\n   1\n");
    assert_eq!(fmt(&[5]), "\n\n\n\n\n   5\n");
}

#[test]
fn fmt_omits_the_connector_of_an_absent_child() {
    assert_eq!(fmt(&[1, 2]), "\n   1\n 2─┘\n");
    assert_eq!(fmt(&[0, 1, 3]), " 0─┐\n   1─┐\n     │\n     3\n");
}

#[test]
fn fmt_draws_no_connector_without_the_parent() {
    assert_eq!(fmt(&[0, 2]), " 0\n\n 2\n");
    assert_eq!(fmt(&[0, 2, 3]), " 0\n\n 2\n     3\n");
}

#[test]
fn fmt_draws_bars_through_rows_without_a_node() {
    assert_eq!(fmt(&[1, 3, 5]), "\n   1─┐\n     │\n     3\n     │\n   5─┘\n");
}

#[test]
fn fmt_draws_a_full_tree() {
    let tree: Vec<usize> = (0..7).collect();
    let expected = [
        " 0─┐",
        "   1─┐",
        " 2─┘ │",
        "     3",
        " 4─┐ │",
        "   5─┘",
        " 6─┘",
        "",
    ]
    .join("\n");
    assert_eq!(fmt(&tree), expected);
}

#[test]
fn fmt_cells_are_as_wide_as_the_largest_index_and_a_space() {
    assert_eq!(fmt(&[9]), format!("{}   9\n", "\n".repeat(9)));
    assert_eq!(fmt(&[10]), format!("{} 10\n", "\n".repeat(10)));
    assert_eq!(
        fmt(&[99, 100]),
        format!("{}          99\n 100\n", "\n".repeat(99))
    );
}

#[test]
fn fmt_has_one_line_for_every_index_up_to_the_largest() {
    let trees: Vec<Vec<usize>> = vec![
        vec![0],
        vec![1],
        vec![0, 1, 2],
        vec![0, 1, 2, 3, 7, 8, 9, 10],
        vec![42],
        vec![17, 3, 128],
        vec![255, 127],
    ];
    for tree in trees {
        let max = *tree.iter().max().unwrap();
        let text = fmt(&tree);
        assert_eq!(text.matches('\n').count(), max + 1);
        assert_eq!(text.lines().count(), max + 1);
        assert!(text.ends_with('\n'));
    }
}

#[test]
fn fmt_puts_every_label_in_the_column_of_its_depth() {
    let trees: Vec<Vec<usize>> = vec![
        vec![0, 1, 2, 3, 7, 8, 9, 10],
        vec![5, 11, 23, 47, 95],
        vec![100, 3, 64, 63],
        (0..40).collect(),
    ];
    for tree in trees {
        let max = *tree.iter().max().unwrap();
        let width = max.to_string().len() + 1;
        let text = fmt(&tree);
        let lines = lines_of(&text);
        for &node in &tree {
            let depth = flat_tree::depth(node);
            let cell: String = lines[node][depth * width..(depth + 1) * width].iter().collect();
            assert_eq!(cell, format!("{:>width$}", node, width = width));
        }
    }
}

#[test]
fn fmt_twice_gives_the_same_text() {
    let tree = vec![0, 1, 2, 3, 7, 8, 9, 10];
    assert_eq!(fmt(&tree), fmt(&tree));
    assert_eq!(fmt(&tree).into_bytes(), fmt(&tree.clone()).into_bytes());
}

#[test]
fn fmt_ignores_order_and_repetition() {
    let sorted = fmt(&[0, 1, 2, 3, 7, 8, 9, 10]);
    assert_eq!(fmt(&[10, 9, 8, 7, 3, 2, 1, 0]), sorted);
    assert_eq!(fmt(&[3, 0, 10, 1, 7, 2, 9, 8, 3, 3, 0, 10]), sorted);
    assert_eq!(fmt(&[2, 0, 1, 1]), fmt(&[0, 1, 2]));
}

#[test]
fn fmt_lines_do_not_end_in_whitespace() {
    let tree: Vec<usize> = vec![0, 1, 2, 3, 7, 8, 9, 10, 33, 35, 39];
    for line in fmt(&tree).lines() {
        assert_eq!(line.trim_end(), line);
    }
}

#[test]
fn can_draw_accepts_indices_below_the_largest_allocation() {
    assert!(can_draw(&[]));
    assert!(can_draw(&[0, 1, 2]));
    assert!(can_draw(&[isize::MAX as usize - 1]));
    assert!(!can_draw(&[isize::MAX as usize]));
    assert!(!can_draw(&[0, usize::MAX, 1]));
}
