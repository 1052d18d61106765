use minesweeper::cascade::RevealOutcome;
use minesweeper::cursor::move_selection;
use minesweeper::field::ConfigError;
use minesweeper::game::CellView;
use minesweeper::game::Fired;
use minesweeper::game::FlagOutcome;
use minesweeper::game::Game;
use minesweeper::game::Status;
use minesweeper::game::NUMBER_OF_CELLS;
use minesweeper::game::NUMBER_OF_MINES;
use minesweeper::game::NUMBER_OF_ROWS_AND_COLUMNS;
use minesweeper::input::ButtonState;
use minesweeper::input::DOWN;
use minesweeper::input::FLAG;
use minesweeper::input::LEFT;
use minesweeper::input::REVEAL;
use minesweeper::input::RIGHT;
use minesweeper::input::SELECT;
use minesweeper::input::START;
use minesweeper::input::UP;

fn layout(side: usize, mines: &[usize]) -> Vec<bool> {
    let mut v = vec![false; side * side];
    for &m in mines {
        v[m] = true;
    }
    v
}

fn game(side: usize, mines: &[usize]) -> Game {
    Game::with_mines(side, &layout(side, mines)).unwrap()
}

fn mines_of(game: &Game) -> Vec<usize> {
    let field = game.field();
    (0..field.cell_count()).filter(|&i| field.cell(i).has_mine).collect()
}

fn revealed(game: &Game) -> Vec<usize> {
    let field = game.field();
    (0..field.cell_count()).filter(|&i| field.cell(i).revealed).collect()
}

fn cells(game: &Game) -> Vec<minesweeper::cell::Cell> {
    (0..game.field().cell_count()).map(|i| game.field().cell(i)).collect()
}

#[test]
fn standard_game_has_ninety_nine_mines_on_576_cells() {
    assert_eq!(NUMBER_OF_ROWS_AND_COLUMNS, 24);
    assert_eq!(NUMBER_OF_CELLS, 576);
    assert_eq!(NUMBER_OF_MINES, 99);
    for _ in 0..20 {
        let game = Game::new();
        assert_eq!(game.field().side(), 24);
        assert_eq!(game.field().cell_count(), 576);
        assert_eq!(game.field().mine_count(), 99);
        assert_eq!(game.field().flags_left(), 99);
        assert_eq!(mines_of(&game).len(), 99);
        assert_eq!(game.status(), Status::Playing);
        assert_eq!(game.selection(), 0);
        assert!(revealed(&game).is_empty());
        for b in 0..8 {
            assert_eq!(game.button(b), ButtonState { pressed: false, ticks_until_action: 0 });
        }
        assert_eq!(game.elapsed_seconds(1_000), 0);
    }
}

#[test]
fn random_board_stores_the_counts_of_its_mines() {
    let game = Game::new();
    let field = game.field();
    let mines: Vec<bool> = (0..576).map(|i| field.cell(i).has_mine).collect();
    for i in 0..576 {
        if !mines[i] {
            let around = minesweeper::grid::neighbors(i, 24).iter().filter(|&&n| mines[n]).count();
            assert_eq!(field.cell(i).mines_around as usize, around);
        }
    }
}

#[test]
fn too_many_mines_are_a_configuration_error() {
    assert_eq!(Game::with_config(9, 3).err(), Some(ConfigError::TooManyMines));
    assert_eq!(Game::with_config(10, 3).err(), Some(ConfigError::TooManyMines));
    assert_eq!(Game::with_config(0, 0).err(), Some(ConfigError::TooManyMines));
    assert_eq!(Game::with_config(576, 24).err(), Some(ConfigError::TooManyMines));
    assert!(Game::with_config(8, 3).is_ok());
    assert!(Game::with_config(0, 1).is_ok());
    assert_eq!(Game::with_mines(3, &vec![false; 4]).err(), Some(ConfigError::LayoutSize));
    assert_eq!(Game::with_mines(2, &vec![true; 4]).err(), Some(ConfigError::TooManyMines));
}

#[test]
fn every_mine_count_below_the_cell_count_is_met_exactly() {
    for side in 1..6usize {
        for count in 0..side * side {
            let game = Game::with_config(count, side).unwrap();
            assert_eq!(mines_of(&game).len(), count);
            assert_eq!(game.field().mine_count(), count);
            assert_eq!(game.field().flags_left(), count);
        }
    }
}

#[test]
fn flagging_every_mine_wins_on_the_last_flag_and_not_before() {
    let mut game = Game::new();
    let mines = mines_of(&game);
    assert_eq!(mines.len(), 99);
    let mut wins = 0;
    for (k, &m) in mines.iter().enumerate() {
        assert_eq!(game.status(), Status::Playing);
        let out = game.flag_from_index(m, 10 + k as u64);
        assert_eq!(out.flags_remaining, 98 - k);
        if out.won {
            wins += 1;
        }
        assert_eq!(out.won, k == 98);
    }
    assert_eq!(wins, 1);
    assert_eq!(game.status(), Status::Won);
    assert_eq!(game.field().flags_left(), 0);
    assert_eq!(game.elapsed_seconds(5_000), 98);
}

#[test]
fn flagging_every_mine_in_another_order_wins_once_too() {
    let mut game = Game::new();
    let mut mines = mines_of(&game);
    mines.reverse();
    mines.rotate_left(37);
    let mut wins = 0;
    for (k, &m) in mines.iter().enumerate() {
        let out = game.flag_from_index(m, 0);
        if out.won {
            wins += 1;
            assert_eq!(k, 98);
        } else {
            assert_eq!(game.status(), Status::Playing);
        }
    }
    assert_eq!(wins, 1);
    assert_eq!(game.status(), Status::Won);
}

#[test]
fn a_misplaced_last_flag_does_not_win() {
    let mut game = game(4, &[0, 5, 10]);
    assert!(!game.flag_from_index(0, 1).won);
    assert!(!game.flag_from_index(5, 2).won);
    // The last flag goes on a free cell.
    let out = game.flag_from_index(3, 3);
    assert_eq!(out, FlagOutcome { won: false, flags_remaining: 0 });
    assert_eq!(game.status(), Status::Playing);
    assert_eq!(game.field().flags_left(), 0);
    // No flag is left for the mine.
    let out = game.flag_from_index(10, 4);
    assert_eq!(out, FlagOutcome { won: false, flags_remaining: 0 });
    assert!(!game.field().cell(10).flagged);
    assert_eq!(game.status(), Status::Playing);
    // Taking the wrong flag off does not win either.
    let out = game.flag_from_index(3, 5);
    assert_eq!(out, FlagOutcome { won: false, flags_remaining: 1 });
    assert_eq!(game.status(), Status::Playing);
    // The right flag does.
    let out = game.flag_from_index(10, 9);
    assert_eq!(out, FlagOutcome { won: true, flags_remaining: 0 });
    assert_eq!(game.status(), Status::Won);
    assert_eq!(game.elapsed_seconds(100), 8);
}

#[test]
fn a_board_without_mines_is_never_won_by_a_flag() {
    let mut game = game(2, &[]);
    assert_eq!(game.field().flags_left(), 0);
    let out = game.flag_from_index(0, 0);
    assert_eq!(out, FlagOutcome { won: false, flags_remaining: 0 });
    assert_eq!(game.status(), Status::Playing);
    assert!(!game.field().cell(0).flagged);
}

#[test]
fn revealing_a_mine_loses_and_stops_the_timer() {
    let mut game = game(3, &[4]);
    let out = game.reveal_from_index(0, 100);
    assert_eq!(out, RevealOutcome { hit_mine: false, flags_delta: 0, cascaded_count: 0 });
    assert_eq!(game.elapsed_seconds(130), 30);
    let out = game.reveal_from_index(4, 142);
    assert_eq!(out, RevealOutcome { hit_mine: true, flags_delta: 0, cascaded_count: 0 });
    assert_eq!(game.status(), Status::Lost);
    assert!(!game.field().cell(4).revealed);
    assert_eq!(game.elapsed_seconds(142), 42);
    assert_eq!(game.elapsed_seconds(10_000), 42);
}

#[test]
fn a_mine_on_the_first_action_loses_at_zero_seconds() {
    let mut game = game(3, &[4]);
    let out = game.reveal_from_index(4, 77);
    assert!(out.hit_mine);
    assert_eq!(game.status(), Status::Lost);
    assert_eq!(game.elapsed_seconds(500), 0);
}

#[test]
fn actions_are_rejected_once_the_game_is_over() {
    let mut game = game(3, &[4]);
    game.flag_from_index(8, 1);
    game.reveal_from_index(4, 2);
    assert_eq!(game.status(), Status::Lost);
    let before = cells(&game);
    let out = game.reveal_from_index(0, 3);
    assert_eq!(out, RevealOutcome { hit_mine: false, flags_delta: 0, cascaded_count: 0 });
    let out = game.flag_from_index(1, 4);
    assert_eq!(out, FlagOutcome { won: false, flags_remaining: 0 });
    let out = game.flag_from_index(8, 4);
    assert_eq!(out, FlagOutcome { won: false, flags_remaining: 0 });
    assert_eq!(cells(&game), before);
    assert_eq!(game.status(), Status::Lost);
    // The selection stays as well.
    assert_eq!(game.update_input(true, RIGHT, 5), Fired::Moved);
    assert_eq!(game.selection(), 0);
    assert_eq!(game.elapsed_seconds(99), 1);

    let mut won = game_won();
    let before = cells(&won);
    won.reveal_from_index(0, 50);
    won.flag_from_index(4, 50);
    assert_eq!(cells(&won), before);
    assert_eq!(won.status(), Status::Won);
}

fn game_won() -> Game {
    let mut g = game(3, &[4]);
    assert!(g.flag_from_index(4, 7).won);
    g
}

#[test]
fn timer_starts_with_the_first_action_that_reaches_the_field() {
    let mut game = game(3, &[8]);
    assert_eq!(game.elapsed_seconds(1_000), 0);
    // Moving the selection is no such action.
    game.update_input(true, RIGHT, 40);
    game.update_input(false, RIGHT, 41);
    assert_eq!(game.elapsed_seconds(1_000), 0);
    game.flag_from_index(4, 50);
    assert_eq!(game.status(), Status::Playing);
    assert_eq!(game.elapsed_seconds(50), 0);
    assert_eq!(game.elapsed_seconds(65), 15);
    // A later action does not start it anew.
    game.reveal_from_index(0, 60);
    assert_eq!(game.elapsed_seconds(65), 15);
    // A clock that runs backwards shows zero.
    assert_eq!(game.elapsed_seconds(49), 0);
}

#[test]
fn a_rejected_action_does_not_start_the_timer() {
    let mut game = game(3, &[8]);
    game.reveal_from_index(0, 10);
    let mut other = Game::with_mines(3, &layout(3, &[8])).unwrap();
    other.reveal_from_index(0, 10);
    // Cell 1 is revealed by now: neither action reaches the field.
    other.reveal_from_index(1, 5);
    other.flag_from_index(1, 5);
    assert_eq!(other.elapsed_seconds(30), game.elapsed_seconds(30));
    assert_eq!(other.elapsed_seconds(30), 20);

    let mut idle = Game::with_mines(3, &layout(3, &[4])).unwrap();
    idle.reveal_from_index(0, 10);
    let mut fresh = Game::with_mines(3, &layout(3, &[4])).unwrap();
    fresh.reveal_from_index(0, 10);
    fresh.reveal_from_index(0, 3);
    assert_eq!(fresh.elapsed_seconds(12), idle.elapsed_seconds(12));
}

#[test]
fn a_flag_without_budget_still_starts_the_timer() {
    let mut game = game(2, &[]);
    game.flag_from_index(0, 10);
    assert_eq!(game.elapsed_seconds(25), 15);
}

#[test]
fn selection_wraps_round_each_edge() {
    for side in [1usize, 2, 3, 5, 24] {
        let mut mines = vec![false; side * side];
        if side > 1 {
            mines[side * side - 1] = true;
        }
        for row in 0..side {
            for col in 0..side {
                let at = row * side + col;
                let moved = |button: usize| -> usize { move_selection(at, side, button) };
                let right = if col + 1 == side { 0 } else { col + 1 };
                let left = if col == 0 { side - 1 } else { col - 1 };
                let up = if row == 0 { side - 1 } else { row - 1 };
                let down = if row + 1 == side { 0 } else { row + 1 };
                assert_eq!(moved(RIGHT), row * side + right);
                assert_eq!(moved(LEFT), row * side + left);
                assert_eq!(moved(UP), up * side + col);
                assert_eq!(moved(DOWN), down * side + col);
                assert_eq!(moved(REVEAL), at);
                assert_eq!(moved(START), at);
            }
        }
    }
}

#[test]
fn selection_wraps_on_the_standard_board() {
    assert_eq!(move_selection(0, 24, LEFT), 23);
    assert_eq!(move_selection(23, 24, RIGHT), 0);
    assert_eq!(move_selection(0, 24, UP), 552);
    assert_eq!(move_selection(552, 24, DOWN), 0);
    assert_eq!(move_selection(575, 24, DOWN), 23);
    assert_eq!(move_selection(575, 24, RIGHT), 552);
    assert_eq!(move_selection(48, 24, LEFT), 71);
    assert_eq!(move_selection(5, 24, UP), 557);
    assert_eq!(move_selection(100, 24, RIGHT), 101);
    assert_eq!(move_selection(100, 24, LEFT), 99);
    assert_eq!(move_selection(100, 24, UP), 76);
    assert_eq!(move_selection(100, 24, DOWN), 124);
}

#[test]
fn a_direction_moves_when_it_goes_down_and_not_when_it_comes_up() {
    let mut game = game(3, &[8]);
    assert_eq!(game.update_input(true, RIGHT, 0), Fired::Moved);
    assert_eq!(game.selection(), 1);
    assert_eq!(game.button(RIGHT), ButtonState { pressed: true, ticks_until_action: 15 });
    // The same report again is no edge.
    assert_eq!(game.update_input(true, RIGHT, 0), Fired::Nothing);
    assert_eq!(game.selection(), 1);
    assert_eq!(game.update_input(false, RIGHT, 0), Fired::Nothing);
    assert_eq!(game.selection(), 1);
    assert_eq!(game.button(RIGHT), ButtonState { pressed: false, ticks_until_action: 0 });
    assert_eq!(game.update_input(false, RIGHT, 0), Fired::Nothing);
    assert_eq!(game.update_input(true, DOWN, 0), Fired::Moved);
    assert_eq!(game.selection(), 4);
    assert_eq!(game.update_input(true, LEFT, 0), Fired::Moved);
    assert_eq!(game.selection(), 3);
    assert_eq!(game.update_input(true, UP, 0), Fired::Moved);
    assert_eq!(game.selection(), 0);
}

#[test]
fn a_held_direction_repeats_at_a_fixed_interval() {
    let mut game = game(5, &[24]);
    game.update_input(true, RIGHT, 0);
    assert_eq!(game.selection(), 1);
    for tick in 1..=15u8 {
        game.update();
        assert_eq!(game.selection(), 1);
        assert_eq!(game.button(RIGHT).ticks_until_action, 15 - tick);
    }
    game.update();
    assert_eq!(game.selection(), 2);
    assert_eq!(game.button(RIGHT), ButtonState { pressed: true, ticks_until_action: 15 });
    for _ in 0..15 {
        game.update();
        assert_eq!(game.selection(), 2);
    }
    game.update();
    assert_eq!(game.selection(), 3);
    game.update_input(false, RIGHT, 0);
    for _ in 0..40 {
        game.update();
    }
    assert_eq!(game.selection(), 3);
}

#[test]
fn held_directions_fire_in_the_order_of_their_numbers() {
    let mut game = game(3, &[8]);
    // Right and down are held from cell 0; the first press moves at once.
    game.update_input(true, RIGHT, 0);
    game.update_input(true, DOWN, 0);
    assert_eq!(game.selection(), 4);
    for _ in 0..15 {
        game.update();
    }
    assert_eq!(game.selection(), 4);
    game.update();
    // Right, then down: column 2, row 2.
    assert_eq!(game.selection(), 8);
}

#[test]
fn reveal_and_flag_buttons_act_when_they_come_up() {
    let mut game = game(3, &[4]);
    assert_eq!(game.update_input(true, REVEAL, 10), Fired::Nothing);
    assert!(revealed(&game).is_empty());
    for _ in 0..40 {
        game.update();
    }
    assert!(revealed(&game).is_empty());
    assert_eq!(
        game.update_input(false, REVEAL, 11),
        Fired::Revealed(RevealOutcome { hit_mine: false, flags_delta: 0, cascaded_count: 0 })
    );
    assert_eq!(revealed(&game), vec![0]);
    // Coming up twice acts once.
    assert_eq!(game.update_input(false, REVEAL, 12), Fired::Nothing);

    game.update_input(true, RIGHT, 12);
    game.update_input(true, DOWN, 12);
    assert_eq!(game.selection(), 4);
    assert_eq!(game.update_input(true, FLAG, 13), Fired::Nothing);
    assert!(!game.field().cell(4).flagged);
    assert_eq!(
        game.update_input(false, FLAG, 20),
        Fired::Flagged(FlagOutcome { won: true, flags_remaining: 0 })
    );
    assert_eq!(game.status(), Status::Won);
    assert_eq!(game.elapsed_seconds(99), 9);
}

#[test]
fn select_and_start_fire_nothing() {
    let mut game = game(3, &[4]);
    for button in [SELECT, START] {
        assert_eq!(game.update_input(true, button, 0), Fired::Nothing);
        assert_eq!(game.button(button), ButtonState { pressed: true, ticks_until_action: 15 });
        for _ in 0..20 {
            game.update();
        }
        assert_eq!(game.button(button), ButtonState { pressed: true, ticks_until_action: 15 });
        assert_eq!(game.update_input(false, button, 0), Fired::Nothing);
    }
    assert_eq!(game.selection(), 0);
    assert!(revealed(&game).is_empty());
    assert_eq!(game.elapsed_seconds(50), 0);
}

#[test]
fn snapshot_tells_of_a_mine_only_where_the_cell_is_revealed() {
    let mut game = game(3, &[6, 8]);
    game.flag_from_index(8, 5);
    game.update_input(true, RIGHT, 5);
    let shot = game.snapshot(9);
    assert_eq!(shot.cells.len(), 9);
    for i in 0..9 {
        assert_eq!(shot.cells[i].has_mine, None);
        assert!(!shot.cells[i].revealed);
        assert_eq!(shot.cells[i].flagged, i == 8);
    }
    assert_eq!(shot.cells[7].mines_around, 2);
    assert_eq!(shot.selection, 1);
    assert_eq!(shot.flags_remaining, 1);
    assert_eq!(shot.elapsed_seconds, 4);
    assert_eq!(shot.status, Status::Playing);

    let mut open = Game::with_mines(3, &layout(3, &[8])).unwrap();
    open.reveal_from_index(0, 0);
    let shot = open.snapshot(30);
    for i in 0..8 {
        assert_eq!(shot.cells[i].has_mine, Some(false));
        assert!(shot.cells[i].revealed);
    }
    assert_eq!(
        shot.cells[4],
        CellView { revealed: true, flagged: false, mines_around: 1, has_mine: Some(false) }
    );
    assert_eq!(
        shot.cells[8],
        CellView { revealed: false, flagged: false, mines_around: 0, has_mine: None }
    );
    assert_eq!(shot.elapsed_seconds, 30);
    assert_eq!(shot.flags_remaining, 1);
}

#[test]
fn reset_begins_a_new_session_on_a_board_of_the_same_kind() {
    let mut game = Game::with_config(5, 4).unwrap();
    let mines = mines_of(&game);
    game.update_input(true, DOWN, 0);
    game.update_input(true, FLAG, 1);
    game.flag_from_index(mines[0], 2);
    let free = (0..16).find(|i| !mines.contains(i)).unwrap();
    game.reveal_from_index(free, 3);
    game.reveal_from_index(mines[1], 4);
    assert_eq!(game.status(), Status::Lost);
    game.reset();
    assert_eq!(game.status(), Status::Playing);
    assert_eq!(game.selection(), 0);
    assert_eq!(game.field().side(), 4);
    assert_eq!(game.field().mine_count(), 5);
    assert_eq!(game.field().flags_left(), 5);
    assert_eq!(mines_of(&game).len(), 5);
    assert!(revealed(&game).is_empty());
    assert_eq!(game.elapsed_seconds(1_000), 0);
    for b in 0..8 {
        assert_eq!(game.button(b), ButtonState { pressed: false, ticks_until_action: 0 });
    }
}

#[test]
fn reveal_through_the_session_cascades_and_counts() {
    let mut game = game(3, &[8]);
    game.flag_from_index(1, 0);
    game.flag_from_index(0, 0);
    let out = game.reveal_from_index(0, 1);
    assert_eq!(out, RevealOutcome { hit_mine: false, flags_delta: 1, cascaded_count: 7 });
    assert_eq!(revealed(&game), vec![0, 1, 2, 3, 4, 5, 6, 7]);
    assert_eq!(game.field().flags_left(), 1);
    assert_eq!(game.status(), Status::Playing);
}
