use connect4::board::{Board, BoardError, DropError};
use connect4::disk::{Disk, Turn};

fn filled(rows: i32, cols: i32, placed: &[(i32, i32, Disk)]) -> Board {
    let mut columns = vec![vec![None; rows as usize]; cols as usize];
    for &(r, c, d) in placed {
        columns[c as usize][r as usize] = Some(d);
    }
    Board::from_columns(rows, cols, columns).unwrap()
}

#[test]
fn new_board_is_empty() {
    for &(rows, cols) in &[(1, 1), (6, 7), (9, 8)] {
        let b = Board::new(rows, cols).unwrap();
        assert_eq!(b.rows(), rows);
        assert_eq!(b.cols(), cols);
        for r in 0..rows {
            for c in 0..cols {
                assert_eq!(b.get(r, c), None);
            }
        }
        assert_eq!(b.check_for_wins(), None);
    }
}

#[test]
fn new_board_rejects_non_positive_sizes() {
    for &(rows, cols) in &[(0, 7), (6, 0), (-1, 7), (6, -3), (0, 0)] {
        assert!(matches!(Board::new(rows, cols), Err(BoardError::InvalidDimensions)));
    }
}

#[test]
fn drops_stack_from_the_bottom() {
    let mut b = Board::new(6, 7).unwrap();
    assert_eq!(b.drop_disk(3, Disk::Red), Ok(5));
    assert_eq!(b.drop_disk(3, Disk::Blue), Ok(4));
    assert_eq!(b.drop_disk(3, Disk::Red), Ok(3));
    assert_eq!(b.get(5, 3), Some(Disk::Red));
    assert_eq!(b.get(4, 3), Some(Disk::Blue));
    assert_eq!(b.get(3, 3), Some(Disk::Red));
    assert_eq!(b.get(2, 3), None);
    assert_eq!(b.drop_disk(0, Disk::Blue), Ok(5));
}

#[test]
fn drop_into_full_column_changes_nothing() {
    let mut b = Board::new(2, 3).unwrap();
    assert_eq!(b.drop_disk(1, Disk::Red), Ok(1));
    assert_eq!(b.drop_disk(1, Disk::Blue), Ok(0));
    let before = b.columns();
    assert_eq!(b.drop_disk(1, Disk::Red), Err(DropError::ColumnFull));
    assert_eq!(b.drop_disk(1, Disk::Blue), Err(DropError::ColumnFull));
    assert_eq!(b.columns(), before);
}

#[test]
fn drop_outside_the_board_changes_nothing() {
    let mut b = Board::new(6, 7).unwrap();
    let before = b.columns();
    assert_eq!(b.drop_disk(-1, Disk::Red), Err(DropError::InvalidColumn));
    assert_eq!(b.drop_disk(7, Disk::Red), Err(DropError::InvalidColumn));
    assert_eq!(b.drop_disk(i32::MAX, Disk::Blue), Err(DropError::InvalidColumn));
    assert_eq!(b.columns(), before);
}

#[test]
fn horizontal_four_is_found() {
    let mut b = Board::new(6, 7).unwrap();
    for c in 2..6 {
        b.drop_disk(c, Disk::Blue).unwrap();
    }
    assert_eq!(b.check_for_wins(), Some((Turn::Blue, (5, 2), (5, 5))));
}

#[test]
fn three_in_a_row_is_no_win() {
    let mut b = Board::new(6, 7).unwrap();
    for c in 0..3 {
        b.drop_disk(c, Disk::Red).unwrap();
    }
    assert_eq!(b.check_for_wins(), None);
}

#[test]
fn mixed_four_is_no_win() {
    let mut b = Board::new(6, 7).unwrap();
    b.drop_disk(0, Disk::Red).unwrap();
    b.drop_disk(1, Disk::Red).unwrap();
    b.drop_disk(2, Disk::Blue).unwrap();
    b.drop_disk(3, Disk::Red).unwrap();
    assert_eq!(b.check_for_wins(), None);
}

#[test]
fn diagonal_four_is_found() {
    let b = filled(
        6,
        7,
        &[
            (5, 0, Disk::Red),
            (5, 1, Disk::Blue),
            (4, 1, Disk::Red),
            (5, 2, Disk::Blue),
            (4, 2, Disk::Blue),
            (3, 2, Disk::Red),
            (5, 3, Disk::Blue),
            (4, 3, Disk::Blue),
            (3, 3, Disk::Blue),
            (2, 3, Disk::Red),
        ],
    );
    // Row 2 comes first in the scan; from (2, 3) the line runs down-left.
    assert_eq!(b.check_for_wins(), Some((Turn::Red, (2, 3), (5, 0))));
    assert_eq!(b.check_for_win(2, 3, Disk::Red), Some((5, 0)));
    assert_eq!(b.check_for_win(5, 0, Disk::Red), Some((2, 3)));
    // Only the three cells after the start are looked at.
    assert_eq!(b.check_for_win(2, 3, Disk::Blue), Some((5, 3)));
    assert_eq!(b.check_for_win(4, 1, Disk::Blue), None);
}

#[test]
fn down_is_tried_before_right() {
    let b = filled(
        4,
        4,
        &[
            (0, 0, Disk::Red),
            (1, 0, Disk::Red),
            (2, 0, Disk::Red),
            (3, 0, Disk::Red),
            (0, 1, Disk::Red),
            (1, 1, Disk::Blue),
            (2, 1, Disk::Blue),
            (3, 1, Disk::Blue),
            (0, 2, Disk::Red),
            (1, 2, Disk::Blue),
            (2, 2, Disk::Red),
            (3, 2, Disk::Blue),
            (0, 3, Disk::Red),
            (1, 3, Disk::Red),
            (2, 3, Disk::Blue),
            (3, 3, Disk::Red),
        ],
    );
    assert_eq!(b.check_for_win(0, 0, Disk::Red), Some((3, 0)));
    assert_eq!(b.check_for_wins(), Some((Turn::Red, (0, 0), (3, 0))));
}

#[test]
fn line_running_off_the_board_is_no_win() {
    let b = filled(6, 7, &[(5, 4, Disk::Red), (5, 5, Disk::Red), (5, 6, Disk::Red)]);
    assert_eq!(b.check_for_win(5, 4, Disk::Red), None);
    assert_eq!(b.check_for_win(5, 6, Disk::Red), None);
    assert_eq!(b.check_for_wins(), None);
}

#[test]
fn from_columns_checks_the_board() {
    assert!(matches!(
        Board::from_columns(0, 1, vec![]),
        Err(BoardError::InvalidDimensions)
    ));
    assert!(matches!(
        Board::from_columns(2, 2, vec![vec![None, None]]),
        Err(BoardError::InvalidShape)
    ));
    assert!(matches!(
        Board::from_columns(2, 2, vec![vec![None, None], vec![None]]),
        Err(BoardError::InvalidShape)
    ));
    assert!(matches!(
        Board::from_columns(2, 1, vec![vec![Some(Disk::Red), None]]),
        Err(BoardError::FloatingDisk)
    ));
    let b = Board::from_columns(2, 1, vec![vec![None, Some(Disk::Red)]]).unwrap();
    assert_eq!(b.get(1, 0), Some(Disk::Red));
    assert_eq!(b.get(0, 0), None);
    assert_eq!(b.get(2, 0), None);
}

#[test]
fn duplicate_is_an_exact_copy() {
    let mut b = Board::new(3, 3).unwrap();
    b.drop_disk(2, Disk::Blue).unwrap();
    let copy = b.duplicate();
    assert_eq!(copy.rows(), 3);
    assert_eq!(copy.cols(), 3);
    assert_eq!(copy.columns(), b.columns());
    assert_eq!(copy.get(2, 2), Some(Disk::Blue));
}

#[test]
fn turn_conversions() {
    let mut t = Turn::Red;
    assert_eq!(t.name(), "Red");
    assert_eq!(t.to_disk(), Disk::Red);
    t.next();
    assert_eq!(t, Turn::Blue);
    assert_eq!(t.name(), "Blue");
    assert_eq!(t.to_disk(), Disk::Blue);
    assert_eq!(Disk::Blue.to_turn(), Turn::Blue);
    assert_eq!(Disk::Red.to_turn(), Turn::Red);
    assert_eq!(Turn::Red.to_ghost_disk(), connect4::disk::GhostDisk::Red);
    assert_eq!(Turn::Blue.to_ghost_disk(), connect4::disk::GhostDisk::Blue);
    t.next();
    assert_eq!(t, Turn::Red);
}
