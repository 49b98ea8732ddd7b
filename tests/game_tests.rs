use tetris::board::ExtendedBoard;
use tetris::data::new_default_piece_data;
use tetris::game::{Event, Game};
use tetris::rng::{PreviewGenerator, SevenBagGenerator};

fn game(lock_delay: usize, max_reset_times: usize) -> Game {
    let board = ExtendedBoard::new(10, 22, new_default_piece_data(), 0);
    Game::new(lock_delay, max_reset_times, board, PreviewGenerator::new(SevenBagGenerator::new(7, 7), 5))
}

#[test]
fn forfeit_ends_the_session() {
    let mut g = game(30, 15);
    assert!(g.add_next_piece().is_ok());
    assert_eq!(g.on_event(Event::Forfeit), Err(()));
}

#[test]
fn second_hold_before_spawn_is_a_no_op() {
    let mut g = game(30, 15);
    let first = *g.rng.preview().front().unwrap();
    g.add_next_piece().unwrap();
    let second = *g.rng.preview().front().unwrap();
    assert_eq!(g.on_event(Event::Hold), Ok(()));
    assert_eq!(g.hold, Some(first));
    assert!(g.hold_used);
    assert_eq!(g.board.current_piece.as_ref().unwrap().typ, second);
    let pos = g.board.current_piece.as_ref().unwrap().position;
    assert_eq!(g.on_event(Event::Hold), Ok(()));
    assert_eq!(g.hold, Some(first));
    assert_eq!(g.board.current_piece.as_ref().unwrap().typ, second);
    assert_eq!(g.board.current_piece.as_ref().unwrap().position, pos);
}

#[test]
fn hard_drop_locks_and_spawns_next() {
    let mut g = game(30, 15);
    g.add_next_piece().unwrap();
    assert_eq!(g.on_event(Event::HardDrop), Ok(()));
    assert!(g.board.board.get_row_filled_count(21) > 0);
    let filled: usize = (0..22).map(|y| g.board.board.get_row_filled_count(y)).sum();
    assert_eq!(filled, 4);
    assert!(g.board.current_piece.is_some());
    assert!(!g.hold_used);
}

#[test]
fn spawn_on_filled_cells_ends_the_session() {
    let mut g = game(30, 15);
    for y in 0..3 {
        for x in 0..9 {
            g.board.board.set_cell(x, y, Some(0));
        }
    }
    assert_eq!(g.add_next_piece(), Err(()));
    assert!(g.board.current_piece.is_none());
}

#[test]
fn lock_delay_locks_a_resting_piece() {
    let mut g = game(2, 15);
    g.add_next_piece().unwrap();
    g.on_event(Event::SoftDropFast).unwrap();
    assert_eq!(g.land_tick_count, 0);
    g.on_event(Event::Tick).unwrap();
    assert_eq!(g.land_tick_count, 1);
    assert_eq!(g.current_tick, 1);
    g.on_event(Event::Tick).unwrap();
    assert_eq!(g.current_tick, 2);
    assert_eq!(g.land_tick_count, 0);
    let filled: usize = (0..22).map(|y| g.board.board.get_row_filled_count(y)).sum();
    assert_eq!(filled, 4);
}

#[test]
fn reset_limit_forces_a_lock() {
    let mut g = game(1000, 2);
    g.add_next_piece().unwrap();
    g.on_event(Event::SoftDropFast).unwrap();
    assert!(g.board.is_land());
    // landed moves, each counted as a reset; the second one reaches the maximum
    let moved = g.move_piece((1, 0), 0).unwrap() || g.move_piece((-1, 0), 0).unwrap();
    assert!(moved);
    assert_eq!(g.reset_times, 1);
    let moved = g.move_piece((-1, 0), 0).unwrap() || g.move_piece((1, 0), 0).unwrap();
    assert!(moved);
    assert_eq!(g.reset_times, 0);
    let filled: usize = (0..22).map(|y| g.board.board.get_row_filled_count(y)).sum();
    assert_eq!(filled, 4);
}

#[test]
fn key_events_move_and_track_direction() {
    let mut g = game(30, 15);
    g.add_next_piece().unwrap();
    let x0 = g.board.current_piece.as_ref().unwrap().position.0;
    g.on_event(Event::MoveLeftBegin).unwrap();
    assert_eq!(g.move_direction, -1);
    assert_eq!(g.board.current_piece.as_ref().unwrap().position.0, x0 - 1);
    g.on_event(Event::MoveRightBegin).unwrap();
    assert_eq!(g.move_direction, 1);
    assert_eq!(g.board.current_piece.as_ref().unwrap().position.0, x0);
    g.on_event(Event::MoveRightEnd).unwrap();
    assert_eq!(g.move_direction, -1);
    assert_eq!(g.board.current_piece.as_ref().unwrap().position.0, x0 - 1);
    g.on_event(Event::MoveLeftEnd).unwrap();
    assert_eq!(g.move_direction, 0);
    g.on_event(Event::SoftDropBegin).unwrap();
    assert!(g.soft_drop_down);
    assert_eq!(g.board.current_piece.as_ref().unwrap().position.1, 1);
    g.on_event(Event::SoftDropEnd).unwrap();
    assert!(!g.soft_drop_down);
    g.on_event(Event::RotateRight).unwrap();
    assert_eq!(g.board.current_piece.as_ref().unwrap().orientation, 1);
    g.on_event(Event::RotateLeft).unwrap();
    assert_eq!(g.board.current_piece.as_ref().unwrap().orientation, 0);
    g.on_event(Event::Rotate180).unwrap();
    assert_eq!(g.board.current_piece.as_ref().unwrap().orientation, 2);
}

#[test]
fn exhausted_sequence_fails_without_changing_the_session() {
    let board = ExtendedBoard::new(10, 22, new_default_piece_data(), 0);
    let mut g = Game::new(30, 15, board, PreviewGenerator::new(SevenBagGenerator::new(3, 0), 5));
    let cells = g.board.board.board.clone();
    assert_eq!(g.add_next_piece(), Err(()));
    assert!(g.board.current_piece.is_none());
    assert_eq!(g.board.board.board, cells);
    assert!(!g.hold_used);
    assert_eq!((g.land_tick_count, g.reset_times), (0, 0));
}
