use disk_game::{Cell, Configuration, Error, Game, Outcome, Player, Pos, RuleError};

fn snapshot(game: &Game) -> (Vec<Cell>, Player) {
    let b = game.board();
    let n = b.size as i8;
    let mut cells = Vec::new();
    for y in 0..n {
        for x in 0..n {
            cells.push(b.get((x, y)));
        }
    }
    (cells, game.get_next_player())
}

fn play_all(game: &mut Game, moves: &[(Player, Pos)]) -> Vec<Outcome> {
    moves
        .iter()
        .map(|&(p, pos)| game.play(p, pos).expect("legal move"))
        .collect()
}

#[test]
fn new_game_starts_with_player_zero_and_blocked_tiles() {
    let game = Game::new(Configuration::corner_8());
    assert_eq!(game.get_next_player(), 0);
    let b = game.board();
    assert_eq!(b.size, 8);
    for pos in [(1, 2), (2, 6), (6, 5), (5, 1)] {
        assert_eq!(b.get(pos), Cell::Blocked);
    }
    assert_eq!(b.get((0, 0)), Cell::Empty);
    assert_eq!(b.get((2, 1)), Cell::Empty);
}

#[test]
fn corner_10_blocks_four_cells() {
    let game = Game::new(Configuration::corner_10());
    let b = game.board();
    assert_eq!(b.size, 10);
    let mut blocked = 0;
    for y in 0..10 {
        for x in 0..10 {
            if b.get((x, y)) == Cell::Blocked {
                blocked += 1;
            }
        }
    }
    assert_eq!(blocked, 4);
    for pos in [(1, 2), (2, 8), (8, 7), (7, 1)] {
        assert_eq!(b.get(pos), Cell::Blocked);
    }
}

#[test]
fn clean_presets_are_empty() {
    for (config, size) in [(Configuration::clean_8(), 8usize), (Configuration::clean_10(), 10)] {
        let game = Game::new(config);
        let b = game.board();
        assert_eq!(b.size, size);
        assert!(b.has_empty_cell());
        for y in 0..size as i8 {
            for x in 0..size as i8 {
                assert_eq!(b.get((x, y)), Cell::Empty);
            }
        }
    }
}

#[test]
fn wrong_player_gets_invalid_turn() {
    let mut game = Game::new(Configuration::clean_8());
    let before = snapshot(&game);
    assert_eq!(game.play(1, (0, 0)), Err(Error::Rule(RuleError::InvalidTurn)));
    assert_eq!(snapshot(&game), before);
    assert_eq!(game.play(0, (0, 0)), Ok(Outcome::Continue));
    assert_eq!(game.play(0, (1, 0)), Err(Error::Rule(RuleError::InvalidTurn)));
    assert_eq!(game.play(1, (1, 0)), Ok(Outcome::Continue));
}

#[test]
fn turn_check_comes_before_cell_checks() {
    let mut game = Game::new(Configuration::corner_8());
    assert_eq!(game.play(1, (1, 2)), Err(Error::Rule(RuleError::InvalidTurn)));
    assert_eq!(game.play(1, (4, 4)), Err(Error::Rule(RuleError::InvalidTurn)));
}

#[test]
fn occupied_cell_is_rejected() {
    let mut game = Game::new(Configuration::clean_8());
    game.play(0, (0, 0)).unwrap();
    let before = snapshot(&game);
    assert_eq!(game.play(1, (0, 0)), Err(Error::Rule(RuleError::NonEmptyCell)));
    assert_eq!(snapshot(&game), before);
    assert_eq!(game.board().get((0, 0)), Cell::Full(0));
}

#[test]
fn blocked_cell_is_rejected() {
    let mut game = Game::new(Configuration::corner_8());
    let before = snapshot(&game);
    assert_eq!(game.play(0, (1, 2)), Err(Error::Rule(RuleError::NonEmptyCell)));
    assert_eq!(snapshot(&game), before);
    assert_eq!(game.board().get((1, 2)), Cell::Blocked);
}

#[test]
fn floating_cell_is_rejected() {
    let mut game = Game::new(Configuration::clean_8());
    let before = snapshot(&game);
    assert_eq!(game.play(0, (4, 4)), Err(Error::Rule(RuleError::FloatingCell)));
    assert_eq!(snapshot(&game), before);
    // next to a blocked cell that does not reach the wall
    let mut game = Game::new(Configuration::corner_8());
    assert_eq!(game.play(0, (1, 3)), Err(Error::Rule(RuleError::FloatingCell)));
}

#[test]
fn cell_resting_on_blocked_chain_is_accepted() {
    let config = Configuration::new(8).add_blocked((0, 3)).add_blocked((3, 7));
    let mut game = Game::new(config);
    // rests leftwards on the blocked cell against the wall
    assert_eq!(game.play(0, (1, 3)), Ok(Outcome::Continue));
    // rests upwards on the blocked cell against the wall
    assert_eq!(game.play(1, (3, 6)), Ok(Outcome::Continue));
    // rests leftwards on the disk and the blocked cell
    assert_eq!(game.play(0, (2, 3)), Ok(Outcome::Continue));
    // surrounded by empty cells
    assert_eq!(game.play(1, (4, 4)), Err(Error::Rule(RuleError::FloatingCell)));
    // a gap breaks the chain
    assert_eq!(game.play(1, (4, 3)), Err(Error::Rule(RuleError::FloatingCell)));
}

#[test]
fn every_wall_supports_a_move() {
    for pos in [(0, 4), (7, 4), (4, 0), (4, 7)] {
        let mut game = Game::new(Configuration::clean_8());
        assert_eq!(game.play(0, pos), Ok(Outcome::Continue));
        assert_eq!(game.board().get(pos), Cell::Full(0));
        assert_eq!(game.get_next_player(), 1);
    }
}

#[test]
fn scenario_row_of_four_on_clean_board() {
    let mut game = Game::new(Configuration::clean_8());
    assert_eq!(game.play(0, (0, 0)), Ok(Outcome::Continue));
    assert_eq!(game.play(1, (3, 3)), Err(Error::Rule(RuleError::FloatingCell)));
    let outcomes = play_all(
        &mut game,
        &[(1, (0, 1)), (0, (1, 0)), (1, (1, 1)), (0, (2, 0)), (1, (2, 1))],
    );
    assert!(outcomes.iter().all(|o| *o == Outcome::Continue));
    assert_eq!(game.play(0, (3, 0)), Ok(Outcome::Win(0)));
}

#[test]
fn column_of_four_wins() {
    let mut game = Game::new(Configuration::clean_8());
    let outcomes = play_all(
        &mut game,
        &[(0, (0, 0)), (1, (1, 0)), (0, (0, 1)), (1, (1, 1)), (0, (0, 2)), (1, (1, 2))],
    );
    assert!(outcomes.iter().all(|o| *o == Outcome::Continue));
    assert_eq!(game.play(0, (0, 3)), Ok(Outcome::Win(0)));
}

#[test]
fn rising_diagonal_of_four_wins() {
    let mut game = Game::new(Configuration::clean_8());
    // player 0 on (0,0), (1,1), (2,2), then (3,3)
    let outcomes = play_all(
        &mut game,
        &[
            (0, (0, 0)),
            (1, (1, 0)),
            (0, (1, 1)),
            (1, (2, 0)),
            (0, (6, 0)),
            (1, (2, 1)),
            (0, (2, 2)),
            (1, (3, 0)),
            (0, (6, 1)),
            (1, (3, 1)),
            (0, (7, 0)),
            (1, (3, 2)),
        ],
    );
    assert!(outcomes.iter().all(|o| *o == Outcome::Continue));
    assert_eq!(game.play(0, (3, 3)), Ok(Outcome::Win(0)));
}

#[test]
fn falling_diagonal_of_four_wins_with_last_disk_inside() {
    let mut game = Game::new(Configuration::clean_8());
    // player 0 on (0,3), (1,2), (3,0), then (2,1) in between
    let outcomes = play_all(
        &mut game,
        &[
            (0, (3, 0)),
            (1, (0, 0)),
            (0, (0, 3)),
            (1, (0, 1)),
            (0, (7, 0)),
            (1, (0, 2)),
            (0, (1, 2)),
            (1, (1, 0)),
            (0, (7, 1)),
            (1, (1, 1)),
            (0, (7, 2)),
            (1, (2, 0)),
        ],
    );
    assert!(outcomes.iter().all(|o| *o == Outcome::Continue));
    assert_eq!(game.play(0, (2, 1)), Ok(Outcome::Win(0)));
}

#[test]
fn three_in_a_row_does_not_win() {
    let mut game = Game::new(Configuration::clean_8());
    let outcomes = play_all(
        &mut game,
        &[(0, (0, 0)), (1, (0, 1)), (0, (1, 0)), (1, (1, 1)), (0, (2, 0)), (1, (2, 1))],
    );
    assert!(outcomes.iter().all(|o| *o == Outcome::Continue));
    assert_eq!(game.play(0, (7, 7)), Ok(Outcome::Continue));
}

#[test]
fn broken_line_does_not_win() {
    let mut game = Game::new(Configuration::clean_8());
    let outcomes = play_all(
        &mut game,
        &[
            (0, (0, 0)),
            (1, (2, 0)),
            (0, (1, 0)),
            (1, (0, 1)),
            (0, (3, 0)),
            (1, (1, 1)),
            (0, (4, 0)),
        ],
    );
    assert!(outcomes.iter().all(|o| *o == Outcome::Continue));
    // 0 0 1 0 0 along the bottom row: four disks of player 0, but not contiguous
    assert_eq!(game.board().get((2, 0)), Cell::Full(1));
    assert_eq!(game.play(1, (7, 0)), Ok(Outcome::Continue));
}

#[test]
fn full_board_without_line_is_a_draw() {
    let mut game = Game::new(Configuration::new(2));
    let outcomes = play_all(&mut game, &[(0, (0, 0)), (1, (1, 0)), (0, (0, 1))]);
    assert!(outcomes.iter().all(|o| *o == Outcome::Continue));
    assert_eq!(game.play(1, (1, 1)), Ok(Outcome::Draw));
}

#[test]
fn win_on_last_empty_cell_is_a_win() {
    let mut game = Game::new(Configuration::new(4).add_blocked((0, 1)).add_blocked((0, 2)));
    let outcomes = play_all(
        &mut game,
        &[
            (0, (0, 0)),
            (1, (3, 0)),
            (0, (1, 0)),
            (1, (3, 1)),
            (0, (2, 0)),
            (1, (1, 1)),
            (0, (2, 1)),
            (1, (3, 2)),
            (0, (1, 2)),
            (1, (2, 2)),
            (0, (0, 3)),
            (1, (1, 3)),
            (0, (2, 3)),
        ],
    );
    assert!(outcomes.iter().all(|o| *o == Outcome::Continue));
    assert!(game.board().has_empty_cell());
    // (3, 3) is the last empty cell and completes column x = 3 for player 1
    assert_eq!(game.play(1, (3, 3)), Ok(Outcome::Win(1)));
    assert!(!game.board().has_empty_cell());
}

#[test]
fn turns_rotate_over_all_players() {
    let mut game = Game::new(Configuration::new(8).with_players(3));
    assert_eq!(game.get_next_player(), 0);
    game.play(0, (0, 0)).unwrap();
    assert_eq!(game.get_next_player(), 1);
    game.play(1, (1, 0)).unwrap();
    assert_eq!(game.get_next_player(), 2);
    assert_eq!(game.play(0, (2, 0)), Err(Error::Rule(RuleError::InvalidTurn)));
    game.play(2, (2, 0)).unwrap();
    assert_eq!(game.get_next_player(), 0);
}

#[test]
fn rejected_moves_change_nothing() {
    let mut game = Game::new(Configuration::corner_8());
    game.play(0, (0, 0)).unwrap();
    let before = snapshot(&game);
    let attempts: [(Player, Pos); 5] = [(0, (0, 1)), (1, (0, 0)), (1, (1, 2)), (1, (4, 4)), (1, (1, 3))];
    for (player, pos) in attempts {
        assert!(game.play(player, pos).is_err());
        assert_eq!(snapshot(&game), before);
    }
}

#[test]
fn rule_error_converts_into_error() {
    assert_eq!(Error::from(RuleError::InvalidTurn), Error::Rule(RuleError::InvalidTurn));
    assert_eq!(Error::from(RuleError::NonEmptyCell), Error::Rule(RuleError::NonEmptyCell));
    assert_eq!(Error::from(RuleError::FloatingCell), Error::Rule(RuleError::FloatingCell));
}
