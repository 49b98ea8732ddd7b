use tetris::board::{Board, ExtendedBoard, PieceData};
use tetris::data::new_default_piece_data;

fn filled_row(b: &mut Board, y: usize, color: usize) {
    for x in 0..b.width {
        assert!(b.set_cell(x, y, Some(color)));
    }
}

fn is_empty(b: &Board) -> bool {
    b.board.iter().all(|c| c.is_none())
}

#[test]
fn full_bottom_row_clears_to_empty_board() {
    let mut b = Board::new(10, 22);
    filled_row(&mut b, 21, 0);
    assert_eq!(b.clear_filled_rows(), (1, 0));
    assert!(is_empty(&b));
}

#[test]
fn compaction_keeps_partial_rows_in_order_and_drops_empty_gaps() {
    let mut b = Board::new(3, 5);
    // row 4 full, row 3 partial (A), row 2 empty, row 1 partial (B), row 0 full
    filled_row(&mut b, 4, 1);
    b.set_cell(0, 3, Some(7));
    b.set_cell(2, 1, Some(8));
    filled_row(&mut b, 0, 2);
    assert_eq!(b.clear_filled_rows(), (2, 2));
    assert_eq!(*b.get_cell(0, 4).unwrap(), Some(7));
    assert_eq!(b.get_row_filled_count(4), 1);
    assert_eq!(*b.get_cell(2, 3).unwrap(), Some(8));
    assert_eq!(b.get_row_filled_count(3), 1);
    for y in 0..3 {
        assert_eq!(b.get_row_filled_count(y), 0);
    }
}

#[test]
fn compaction_with_every_row_partial_changes_nothing() {
    let mut b = Board::new(2, 3);
    for y in 0..3 {
        b.set_cell(y % 2, y, Some(y));
    }
    let before = b.board.clone();
    assert_eq!(b.clear_filled_rows(), (0, 3));
    assert_eq!(b.board, before);
}

#[test]
fn cell_access_is_bounds_checked() {
    let mut b = Board::new(4, 2);
    assert_eq!(b.get_cell(4, 0), None);
    assert_eq!(b.get_cell(0, 2), None);
    assert!(!b.set_cell(4, 0, Some(1)));
    assert!(b.set_cell(3, 1, Some(1)));
    assert_eq!(b.get_cell(3, 1), Some(&Some(1)));
    assert_eq!(b.get_row_filled_count(1), 1);
    assert_eq!(b.get_row_filled_count(9), 0);
    b.copy_row(1, 0);
    assert_eq!(b.get_cell(3, 0), Some(&Some(1)));
    b.clear_row(1);
    assert_eq!(b.get_row_filled_count(1), 0);
    b.clear();
    assert!(is_empty(&b));
}

#[test]
fn test_piece_rejects_occupied_and_out_of_bounds() {
    let pieces = new_default_piece_data();
    let o = &pieces[3];
    let mut b = Board::new(10, 22);
    assert!(b.test_piece(o, (0, 0), 0));
    assert!(!b.test_piece(o, (-1, 0), 0));
    assert!(!b.test_piece(o, (9, 0), 0));
    assert!(!b.test_piece(o, (0, 21), 0));
    assert!(!b.test_piece(o, (0, 0), 4));
    b.set_cell(1, 1, Some(0));
    assert!(!b.test_piece(o, (0, 0), 0));
    assert!(b.test_piece(o, (2, 0), 0));
}

#[test]
fn kicks_take_the_first_fitting_candidate() {
    let pieces = new_default_piece_data();
    let t = &pieces[5];
    let mut b = Board::new(10, 22);
    // open board: the first candidate (0, 0) is taken
    assert_eq!(b.test_move_piece(t, (4, 5), 0, (0, 0), 1), Some(((4, 5), 1)));
    // block the cell (5, 7) that orientation R needs at (4, 5): candidate (-1, 0) is next
    b.set_cell(5, 7, Some(0));
    assert_eq!(b.test_move_piece(t, (4, 5), 0, (0, 0), 1), Some(((3, 5), 1)));
    // a rotation index outside the table is rejected
    assert_eq!(b.test_move_piece(t, (4, 5), 0, (0, 0), 4), None);
}

#[test]
fn lock_piece_writes_only_cells_on_the_board() {
    let pieces = new_default_piece_data();
    let mut b = Board::new(10, 22);
    b.lock_piece(&pieces[0], (0, 20), 0, 9);
    assert_eq!(b.get_row_filled_count(21), 4);
    for x in 0..4 {
        assert_eq!(b.get_cell(x, 21), Some(&Some(9)));
    }
    let mut c = Board::new(10, 22);
    c.lock_piece(&pieces[0], (8, 20), 0, 2);
    assert_eq!(c.get_row_filled_count(21), 2);
}

#[test]
fn default_pieces_are_the_seven_standard_ones() {
    let pieces: Vec<PieceData> = new_default_piece_data();
    let names: Vec<&str> = pieces.iter().map(|p| p.name.as_str()).collect();
    assert_eq!(names, vec!["I", "J", "L", "O", "S", "T", "Z"]);
    assert_eq!(pieces[0].test_table[0][1], vec![(0, 0), (-2, 0), (1, 0), (-2, -1), (1, 2)]);
    assert_eq!(pieces[1].test_table[0][1], vec![(0, 0), (-1, 0), (-1, 1), (0, -2), (-1, -2)]);
    assert_eq!(pieces[3].test_table[2][3], vec![(0, 0)]);
}

#[test]
fn spawn_moves_and_fast_drop() {
    let mut eb = ExtendedBoard::new(10, 22, new_default_piece_data(), 0);
    assert!(eb.add_piece_default_position(0));
    let p = eb.current_piece.as_ref().unwrap();
    assert_eq!((p.typ, p.position, p.orientation), (0, (3, 0), 0));
    assert_eq!(eb.test_fast_drop(), 20);
    assert!(!eb.is_land());
    assert!(eb.move_piece((-3, 0), 0));
    assert!(!eb.move_piece((-1, 0), 0));
    eb.fast_drop();
    assert_eq!(eb.current_piece.as_ref().unwrap().position, (0, 20));
    assert!(eb.is_land());
    eb.lock_piece();
    assert!(eb.current_piece.is_none());
    assert!(!eb.is_land());
    assert_eq!(eb.test_fast_drop(), 0);
    assert_eq!(eb.board.get_row_filled_count(21), 4);
    eb.reset();
    assert_eq!(eb.board.get_row_filled_count(21), 0);
}

#[test]
fn spawn_fails_on_occupied_spawn_cells() {
    let mut eb = ExtendedBoard::new(10, 22, new_default_piece_data(), 0);
    for x in 0..10 {
        eb.board.set_cell(x, 1, Some(0));
    }
    assert!(!eb.add_piece_default_position(0));
    assert!(eb.current_piece.is_none());
    assert!(!eb.add_piece_default_position(7));
    assert!(eb.add_piece(0, (3, 5)));
    assert_eq!(eb.current_piece.as_ref().unwrap().position, (3, 5));
}

#[test]
fn get_cell_mut_writes_in_place() {
    let mut b = Board::new(3, 3);
    assert!(b.get_cell_mut(3, 0).is_none());
    assert!(b.get_cell_mut(0, 3).is_none());
    *b.get_cell_mut(2, 1).unwrap() = Some(4);
    assert_eq!(b.board[5], Some(4));
    assert_eq!(b.get_cell(2, 1), Some(&Some(4)));
    assert_eq!(b.get_row_filled_count(1), 1);
}

#[test]
fn catalog_widths_cells_and_kick_lengths() {
    let pieces = new_default_piece_data();
    let widths: Vec<usize> = pieces.iter().map(|p| p.initial_width).collect();
    assert_eq!(widths, vec![4, 3, 3, 2, 3, 3, 3]);
    for (t, p) in pieces.iter().enumerate() {
        assert_eq!(p.orientation.len(), 4);
        assert_eq!(p.test_table.len(), 4);
        for o in 0..4 {
            let cells = &p.orientation[o];
            assert_eq!(cells.len(), 4);
            for i in 0..4 {
                assert!(cells[i].0 < 4 && cells[i].1 < 4);
                for j in 0..i {
                    assert_ne!(cells[i], cells[j]);
                }
            }
            assert_eq!(p.test_table[o].len(), 4);
            assert_eq!(p.test_table[o][0], vec![(0, 0)]);
            assert_eq!(p.test_table[o][2], vec![(0, 0)]);
            for rot in [1, 3] {
                if t == 3 {
                    assert_eq!(p.test_table[o][rot], vec![(0, 0)]);
                } else {
                    assert_eq!(p.test_table[o][rot].len(), 5);
                    assert_eq!(p.test_table[o][rot][0], (0, 0));
                }
            }
        }
    }
}

#[test]
fn catalog_holds_published_offsets() {
    let pieces = new_default_piece_data();
    assert_eq!(pieces[1].test_table[0][1], vec![(0, 0), (-1, 0), (-1, 1), (0, -2), (-1, -2)]);
    assert_eq!(pieces[0].test_table[0][1], vec![(0, 0), (-2, 0), (1, 0), (-2, -1), (1, 2)]);
    assert_eq!(pieces[0].test_table[1][3], vec![(0, 0), (2, 0), (-1, 0), (2, 1), (-1, -2)]);
    assert_eq!(pieces[5].orientation[0], vec![(1, 1), (0, 1), (1, 0), (2, 1)]);
}

#[test]
fn t_kick_back_to_spawn_takes_second_candidate() {
    let pieces = new_default_piece_data();
    let b = Board::new(10, 22);
    assert_eq!(b.test_move_piece(&pieces[5], (-1, 5), 1, (0, 0), 3), Some(((0, 5), 0)));
}

#[test]
fn i_spawn_blocked_by_one_cell() {
    let mut eb = ExtendedBoard::new(10, 22, new_default_piece_data(), 0);
    *eb.board.get_cell_mut(4, 1).unwrap() = Some(6);
    let before = eb.board.board.clone();
    assert!(!eb.add_piece_default_position(0));
    assert!(eb.current_piece.is_none());
    assert_eq!(eb.board.board, before);
}

#[test]
fn i_locked_at_right_edge_keeps_two_cells() {
    let pieces = new_default_piece_data();
    let mut b = Board::new(10, 22);
    b.lock_piece(&pieces[0], (8, 0), 0, 0);
    assert_eq!(b.get_cell(8, 1), Some(&Some(0)));
    assert_eq!(b.get_cell(9, 1), Some(&Some(0)));
    assert_eq!(b.board.iter().filter(|c| c.is_some()).count(), 2);
}

#[test]
fn o_piece_drops_twenty_rows() {
    let mut eb = ExtendedBoard::new(10, 22, new_default_piece_data(), 0);
    assert!(eb.add_piece(3, (4, 0)));
    assert_eq!(eb.test_fast_drop(), 20);
}
