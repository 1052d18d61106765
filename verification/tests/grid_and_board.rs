use minesweeper::cell::Cell;
use minesweeper::field::count_adjacent_mines;
use minesweeper::field::ConfigError;
use minesweeper::field::Field;
use minesweeper::grid::neighbors;
use minesweeper::grid::one_d_to_two_d;
use minesweeper::grid::two_d_to_one_d;

fn layout(side: usize, mines: &[usize]) -> Vec<bool> {
    let mut v = vec![false; side * side];
    for &m in mines {
        v[m] = true;
    }
    v
}

fn sorted(mut v: Vec<usize>) -> Vec<usize> {
    v.sort();
    v
}

#[test]
fn index_splits_into_column_and_row() {
    assert_eq!(one_d_to_two_d(0, 24), (0, 0));
    assert_eq!(one_d_to_two_d(23, 24), (23, 0));
    assert_eq!(one_d_to_two_d(24, 24), (0, 1));
    assert_eq!(one_d_to_two_d(575, 24), (23, 23));
    assert_eq!(one_d_to_two_d(7, 3), (1, 2));
}

#[test]
fn column_and_row_join_into_index() {
    assert_eq!(two_d_to_one_d(0, 0, 24), 0);
    assert_eq!(two_d_to_one_d(23, 0, 24), 23);
    assert_eq!(two_d_to_one_d(0, 1, 24), 24);
    assert_eq!(two_d_to_one_d(23, 23, 24), 575);
    assert_eq!(two_d_to_one_d(1, 2, 3), 7);
}

#[test]
fn split_and_join_are_inverse_on_every_cell() {
    for side in 1..8usize {
        for i in 0..side * side {
            let (x, y) = one_d_to_two_d(i, side);
            assert!(x < side && y < side);
            assert_eq!(two_d_to_one_d(x, y, side), i);
        }
    }
}

#[test]
fn neighbors_of_a_corner_an_edge_and_an_inner_cell() {
    assert_eq!(neighbors(0, 3), vec![3, 1, 4]);
    assert_eq!(neighbors(1, 3), vec![0, 3, 4, 2, 5]);
    assert_eq!(neighbors(4, 3), vec![0, 3, 6, 1, 7, 2, 5, 8]);
    assert_eq!(sorted(neighbors(8, 3)), vec![4, 5, 7]);
    assert_eq!(sorted(neighbors(575, 24)), vec![550, 551, 574]);
    assert_eq!(neighbors(0, 1), Vec::<usize>::new());
}

#[test]
fn neighbors_do_not_wrap_round_a_row() {
    // Cell 3 starts the second row of a board of side 3; cell 2 ends the first.
    assert!(!neighbors(3, 3).contains(&2));
    assert!(!neighbors(2, 3).contains(&3));
    assert_eq!(sorted(neighbors(3, 3)), vec![0, 1, 4, 6, 7]);
}

#[test]
fn adjacent_mines_are_counted_in_the_clipped_block() {
    let mines = layout(3, &[4]);
    for i in [0usize, 1, 2, 3, 5, 6, 7, 8] {
        assert_eq!(count_adjacent_mines(&mines, 3, i), 1);
    }
    assert_eq!(count_adjacent_mines(&mines, 3, 4), 0);

    let full = layout(3, &[0, 1, 2, 3, 5, 6, 7, 8]);
    assert_eq!(count_adjacent_mines(&full, 3, 4), 8);
    assert_eq!(count_adjacent_mines(&full, 3, 0), 2);
    assert_eq!(count_adjacent_mines(&full, 3, 1), 4);

    // A mine at the end of a row is no neighbour of the cell that starts the next.
    let edge = layout(3, &[2]);
    assert_eq!(count_adjacent_mines(&edge, 3, 3), 0);
    assert_eq!(count_adjacent_mines(&edge, 3, 1), 1);
    assert_eq!(count_adjacent_mines(&edge, 3, 5), 1);
    assert_eq!(count_adjacent_mines(&edge, 3, 4), 1);
}

#[test]
fn field_from_layout_stores_the_counts() {
    let mines = layout(4, &[0, 5, 15]);
    let field = Field::from_mines(4, &mines).unwrap();
    assert_eq!(field.side(), 4);
    assert_eq!(field.cell_count(), 16);
    assert_eq!(field.mine_count(), 3);
    assert_eq!(field.flags_left(), 3);
    let expect: [u8; 16] = [0, 2, 1, 0, 2, 0, 1, 0, 1, 1, 2, 1, 0, 0, 1, 0];
    for i in 0..16 {
        let cell = field.cell(i);
        assert_eq!(cell.has_mine, mines[i]);
        assert!(!cell.revealed);
        assert!(!cell.flagged);
        assert_eq!(cell.mines_around, expect[i], "cell {}", i);
    }
}

#[test]
fn every_free_cell_counts_the_mines_among_its_neighbors() {
    let mines = layout(5, &[0, 3, 6, 7, 12, 18, 24, 20]);
    let field = Field::from_mines(5, &mines).unwrap();
    for i in 0..25 {
        let cell = field.cell(i);
        if !cell.has_mine {
            let around = neighbors(i, 5).iter().filter(|&&n| mines[n]).count();
            assert_eq!(cell.mines_around as usize, around);
        } else {
            assert_eq!(cell.mines_around, 0);
        }
    }
}

#[test]
fn layout_of_the_wrong_size_is_refused() {
    let short = vec![false; 8];
    assert_eq!(Field::from_mines(3, &short).err(), Some(ConfigError::LayoutSize));
    let long = vec![false; 10];
    assert_eq!(Field::from_mines(3, &long).err(), Some(ConfigError::LayoutSize));
    let none = vec![false; 1];
    assert_eq!(Field::from_mines(0, &none).err(), Some(ConfigError::LayoutSize));
}

#[test]
fn layout_without_a_free_cell_is_refused() {
    let full = vec![true; 9];
    assert_eq!(Field::from_mines(3, &full).err(), Some(ConfigError::TooManyMines));
    let empty: Vec<bool> = Vec::new();
    assert_eq!(Field::from_mines(0, &empty).err(), Some(ConfigError::TooManyMines));
    let almost = layout(2, &[0, 1, 2]);
    assert!(Field::from_mines(2, &almost).is_ok());
}

#[test]
fn new_cell_is_hidden_and_empty() {
    let cell = Cell::new();
    assert_eq!(cell, Cell { revealed: false, flagged: false, has_mine: false, mines_around: 0 });
    assert!(cell.should_reveal());
}

#[test]
fn should_reveal_wants_a_hidden_cell_without_mine() {
    let mut cell = Cell::new();
    cell.has_mine = true;
    assert!(!cell.should_reveal());
    cell.has_mine = false;
    cell.revealed = true;
    assert!(!cell.should_reveal());
    cell.flagged = true;
    cell.revealed = false;
    assert!(cell.should_reveal());
}

#[test]
fn revealing_a_cell_takes_its_flag_and_reports_a_mine() {
    let mut cell = Cell { revealed: false, flagged: true, has_mine: false, mines_around: 3 };
    let out = cell.reveal_cell();
    assert!(out.flag_cleared);
    assert!(!out.hit_mine);
    assert_eq!(cell, Cell { revealed: true, flagged: false, has_mine: false, mines_around: 3 });

    let mut mine = Cell { revealed: false, flagged: false, has_mine: true, mines_around: 0 };
    let out = mine.reveal_cell();
    assert!(!out.flag_cleared);
    assert!(out.hit_mine);
    assert!(mine.revealed);
}
