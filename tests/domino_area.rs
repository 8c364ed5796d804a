use domino::{DominoArea, DominoColor};

fn near_sorted(area: &DominoArea, row: u64, col: u64) -> Vec<u64> {
    let mut v = area.get_near_cells(row, col);
    v.sort();
    v
}

#[test]
fn domino_test_draw_colors() {
    let mut domino_area = DominoArea::create_empty(3, 5);
    *domino_area.get_cell_at_index_mut(12) = DominoColor::Unused;
    *domino_area.get_cell_at_index_mut(13) = DominoColor::Unused;
    println!("\n{}", domino_area.custom_fmt(&[], &[]));

    let indexes = [
        vec![1, 2, 3],
        vec![0, 5],
        vec![10, 11, 6],
        vec![4, 9, 14],
        vec![7, 8],
    ];
    for index in indexes {
        let valid_colors = domino_area.get_valid_colors(&index);
        println!("{valid_colors:?}");
        domino_area.set_valid_color(&index, valid_colors[0].clone());
        println!("{}", domino_area.custom_fmt(&index, &[]));
    }
}

#[test]
fn domino_test_utils() {
    let domino_area = DominoArea::create_empty(5, 4);

    assert!(domino_area.is_position_valid(4, 3));
    assert!(domino_area.is_position_valid(0, 0));
    assert!(!domino_area.is_position_valid(5, 3));
    assert!(!domino_area.is_position_valid(1, 4));

    let near_tests = [
        (vec![1, 4], (0, 0)),
        (vec![1, 4, 6, 9], (1, 1)),
        (vec![7, 10, 15], (2, 3)),
        (vec![13, 16, 18], (4, 1)),
        (vec![15, 18], (4, 3)),
    ];
    for (expected, cell) in near_tests {
        let mut actual = domino_area.get_near_cells(cell.0, cell.1);
        actual.sort();
        assert_eq!(expected, actual);
    }
}

#[test]
fn test_empty_nears() {
    let mut domino_area = DominoArea::create_empty(3, 4);
    *domino_area.get_cell_mut(0, 3) = DominoColor::Unused;
    *domino_area.get_cell_mut(1, 3) = DominoColor::Unused;
    println!("\n{}", domino_area.custom_fmt(&[], &[]));

    let tests = [
        (vec![1, 2, 1, 1, 2, 3, 3, 2, 2, 3, 3, 1], vec![0, 1]),
        (vec![1, 1, 0, 0, 2, 2, 2, 1, 2, 3, 2, 1], vec![2, 6]),
        (vec![0, 1, 0, 0, 1, 1, 2, 1, 1, 2, 2, 1], vec![4, 8]),
        (vec![0, 1, 0, 0, 1, 1, 1, 0, 1, 1, 1, 0], vec![10, 11]),
        (vec![0, 0, 0, 0, 0, 0, 0, 0, 0, 0, 0, 0], vec![5, 9]),
    ];

    for test in tests {
        let colors = domino_area.get_valid_colors(&test.1);
        domino_area.set_valid_color(&test.1, colors[0].clone());
        let expected = test.0;
        let actual = domino_area.compute_empty_nears();
        assert_eq!(expected, actual);
        println!("{actual:?}");
        let custom_text: Vec<String> = actual
            .iter()
            .enumerate()
            .map(|(i, n)| {
                if *domino_area.get_cell_at_index(u64::try_from(i).unwrap()) == DominoColor::Empty {
                    format!("{n:<2}")
                } else {
                    format!("")
                }
            })
            .collect();
        println!("{}", domino_area.custom_fmt(&test.1, &custom_text));
    }
}

#[test]
fn main_test_draw_colors() {
    let mut domino_area = DominoArea::create_empty(3, 5);
    *domino_area.get_cell_at_index_mut(12) = DominoColor::Unused;
    *domino_area.get_cell_at_index_mut(13) = DominoColor::Unused;
    println!("\n{}", domino_area.custom_fmt(&[], &[]));

    let indexes = [
        vec![1, 2, 3],
        vec![0, 5],
        vec![10, 11, 6],
        vec![4, 9, 14],
        vec![7, 8],
    ];
    for index in indexes {
        let valid_colors = domino_area.get_valid_colors(&index);
        println!("{valid_colors:?}");
        let highlight = index.clone();
        domino_area.set_valid_color(&index, valid_colors[0].clone());
        println!("{}", domino_area.custom_fmt(&highlight, &[]));
    }
}

#[test]
fn main_test_utils() {
    let domino_area = DominoArea::create_empty(5, 4);

    assert!(domino_area.is_position_valid(4, 3));
    assert!(domino_area.is_position_valid(0, 0));
    assert!(!domino_area.is_position_valid(5, 3));
    assert!(!domino_area.is_position_valid(1, 4));

    let near_tests = [
        (vec![1, 4], (0, 0)),
        (vec![1, 4, 6, 9], (1, 1)),
        (vec![7, 10, 15], (2, 3)),
        (vec![13, 16, 18], (4, 1)),
        (vec![15, 18], (4, 3)),
    ];
    for (expected, cell) in near_tests {
        let mut actual = domino_area.get_near_cells(cell.0, cell.1);
        actual.sort();
        assert_eq!(expected, actual);
    }
}

#[test]
fn draw_colors_picks_expected_sequence() {
    let mut area = DominoArea::create_empty(3, 5);
    *area.get_cell_at_index_mut(12) = DominoColor::Unused;
    *area.get_cell_at_index_mut(13) = DominoColor::Unused;
    let steps: [(Vec<u64>, DominoColor); 5] = [
        (vec![1, 2, 3], DominoColor::Blue),
        (vec![0, 5], DominoColor::Red),
        (vec![10, 11, 6], DominoColor::Green),
        (vec![4, 9, 14], DominoColor::Red),
        (vec![7, 8], DominoColor::Yellow),
    ];
    for (req, first) in steps {
        let colors = area.get_valid_colors(&req);
        assert_eq!(colors[0], first);
        area.set_valid_color(&req, colors[0]);
    }
}

#[test]
fn index_round_trip() {
    let area = DominoArea::create_empty(3, 5);
    for r in 0..3u64 {
        for c in 0..5u64 {
            let i = area.to_index(r, c);
            assert_eq!(area.row_from_index(i), r);
            assert_eq!(area.col_from_index(i), c);
            assert_eq!(area.to_index(r, area.col_from_index(i)), i);
        }
    }
    assert_eq!(area.to_index(2, 3), 13);
    assert_eq!(area.row_from_index(13), 2);
    assert_eq!(area.col_from_index(13), 3);
    assert_eq!(area.rows(), 3);
    assert_eq!(area.cols(), 5);
}

#[test]
fn near_cells_interior_edge_corner() {
    let area = DominoArea::create_empty(4, 4);
    assert_eq!(area.get_near_cells(1, 2).len(), 4);
    assert_eq!(area.get_near_cells(0, 2).len(), 3);
    assert_eq!(area.get_near_cells(2, 3).len(), 3);
    assert_eq!(area.get_near_cells(3, 3).len(), 2);
    assert_eq!(area.get_near_cells(0, 0).len(), 2);
    assert_eq!(area.get_near_cells(1, 2), vec![10, 7, 2, 5]);
    for r in 0..4u64 {
        for c in 0..4u64 {
            let own = area.to_index(r, c);
            for n in area.get_near_cells(r, c) {
                assert_ne!(n, own);
                assert!(n < 16);
            }
        }
    }
}

#[test]
fn near_cells_single_cell_board() {
    let area = DominoArea::create_empty(1, 1);
    assert!(area.get_near_cells(0, 0).is_empty());
    let line = DominoArea::create_empty(1, 3);
    assert_eq!(near_sorted(&line, 0, 1), vec![0, 2]);
}

#[test]
fn commit_changes_only_request() {
    let mut area = DominoArea::create_empty(2, 3);
    *area.get_cell_mut(1, 2) = DominoColor::Unused;
    area.set_valid_color(&[0, 4], DominoColor::Green);
    assert_eq!(*area.get_cell_at_index(0), DominoColor::Green);
    assert_eq!(*area.get_cell_at_index(4), DominoColor::Green);
    assert_eq!(*area.get_cell(1, 1), DominoColor::Green);
    assert_eq!(*area.get_cell_at_index(5), DominoColor::Unused);
    for i in [1u64, 2, 3] {
        assert_eq!(*area.get_cell_at_index(i), DominoColor::Empty);
    }
}

#[test]
fn commit_empty_request_changes_nothing() {
    let mut area = DominoArea::create_empty(2, 2);
    area.set_valid_color(&[], DominoColor::Red);
    for i in 0..4u64 {
        assert_eq!(*area.get_cell_at_index(i), DominoColor::Empty);
    }
}

#[test]
fn all_four_neighbour_colors_leave_none() {
    let mut area = DominoArea::create_empty(3, 3);
    area.set_valid_color(&[1], DominoColor::Blue);
    area.set_valid_color(&[3], DominoColor::Red);
    area.set_valid_color(&[5], DominoColor::Green);
    area.set_valid_color(&[7], DominoColor::Yellow);
    assert!(area.get_valid_colors(&[4]).is_empty());
}

#[test]
fn valid_colors_exclude_neighbours_only() {
    let mut area = DominoArea::create_empty(3, 3);
    area.set_valid_color(&[1], DominoColor::Red);
    area.set_valid_color(&[8], DominoColor::Blue);
    assert_eq!(
        area.get_valid_colors(&[0, 3]),
        vec![DominoColor::Blue, DominoColor::Green, DominoColor::Yellow]
    );
    area.set_valid_color(&[2], DominoColor::Unused);
    assert_eq!(
        area.get_valid_colors(&[5]),
        vec![DominoColor::Red, DominoColor::Green, DominoColor::Yellow]
    );
    assert_eq!(
        area.get_valid_colors(&[]),
        vec![DominoColor::Blue, DominoColor::Red, DominoColor::Green, DominoColor::Yellow]
    );
}

#[test]
fn valid_colors_twice_same() {
    let mut area = DominoArea::create_empty(3, 3);
    area.set_valid_color(&[1, 2], DominoColor::Green);
    let first = area.get_valid_colors(&[4, 5]);
    let second = area.get_valid_colors(&[4, 5]);
    assert_eq!(first, second);
    assert_eq!(first, vec![DominoColor::Blue, DominoColor::Red, DominoColor::Yellow]);
}

#[test]
fn scenario_unused_right_column() {
    let mut area = DominoArea::create_empty(3, 5);
    for i in [4u64, 9, 14] {
        *area.get_cell_at_index_mut(i) = DominoColor::Unused;
    }
    let first = area.get_valid_colors(&[1, 2]);
    assert_eq!(
        first,
        vec![DominoColor::Blue, DominoColor::Red, DominoColor::Green, DominoColor::Yellow]
    );
    area.set_valid_color(&[1, 2], DominoColor::Blue);
    assert_eq!(
        area.get_valid_colors(&[0, 5]),
        vec![DominoColor::Red, DominoColor::Green, DominoColor::Yellow]
    );
}

#[test]
fn fresh_board_empty_nears() {
    let area = DominoArea::create_empty(3, 4);
    assert_eq!(area.compute_empty_nears(), vec![2, 3, 3, 2, 3, 4, 4, 3, 2, 3, 3, 2]);
}

#[test]
fn empty_board_has_no_cells() {
    let area = DominoArea::create_empty(0, 4);
    assert!(area.compute_empty_nears().is_empty());
    assert_eq!(area.custom_fmt(&[], &[]), "");
}

#[test]
fn render_exact_text() {
    let mut area = DominoArea::create_empty(1, 2);
    area.set_valid_color(&[1], DominoColor::Blue);
    let plain = area.custom_fmt(&[], &[]);
    assert_eq!(plain, "\x1b[47m\x1b[30m  \x1b[0m\x1b[44m\x1b[30m  \x1b[0m\n");
    let marked = area.custom_fmt(&[0], &[String::new(), String::from("ab")]);
    assert_eq!(marked, "\x1b[47m\x1b[30m\u{272a} \x1b[0m\x1b[44m\x1b[30mab\x1b[0m\n");
}

#[test]
fn render_rows_and_unused() {
    let mut area = DominoArea::create_empty(2, 1);
    *area.get_cell_mut(1, 0) = DominoColor::Unused;
    area.set_valid_color(&[0], DominoColor::Red);
    let text = area.custom_fmt(&[], &[String::from("7 ")]);
    assert_eq!(text, "\x1b[41m\x1b[30m7 \x1b[0m\n\x1b[40m\x1b[30m  \x1b[0m\n");
}
