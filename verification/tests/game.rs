use rl::{Color, Game, GameResult, IllegalAction};

fn board_of(marks: &str) -> [Option<Color>; 9] {
    let mut board = [None; 9];
    for (i, c) in marks.chars().enumerate() {
        board[i] = match c {
            'X' => Some(Color::X),
            'O' => Some(Color::O),
            _ => None,
        };
    }
    board
}

fn game_of(marks: &str, to_move: Color) -> Game {
    Game { board: board_of(marks), to_move }
}

#[test]
fn test_actions() {
    let initial = Game::new();
    assert_eq!(initial.actions(), vec!(0, 1, 2, 3, 4, 5, 6, 7, 8));

    let game = initial.take_actions(&[4, 0, 1, 7]);
    assert_eq!(game.actions(), vec!(2, 3, 5, 6, 8));
}

#[test]
fn test_hash() {
    let initial = Game::new();
    assert_eq!(initial.hash(), 0);

    let game = initial.take_actions(&[4, 0, 1, 7]);
    assert_eq!(
        game.hash(),
        1 * 3u16.pow(4) + 2 * 3u16.pow(0) + 1 * 3u16.pow(1) + 2 * 3u16.pow(7)
    );
}

#[test]
fn test_result() {
    let initial = Game::new();
    assert_eq!(initial.result(), GameResult { has_ended: false, winner: None });

    let x_win = initial.take_actions(&[4, 0, 1, 2, 7]);
    assert_eq!(x_win.result(), GameResult { has_ended: true, winner: Some(Color::X) });

    let o_win = initial.take_actions(&[4, 0, 1, 3, 2, 6]);
    assert_eq!(o_win.result(), GameResult { has_ended: true, winner: Some(Color::O) });

    let draw = initial.take_actions(&[4, 0, 2, 6, 3, 5, 1, 7, 8]);
    assert_eq!(draw.result(), GameResult { has_ended: true, winner: None });
}

#[test]
fn test_render() {
    let initial = Game::new();
    assert_eq!(initial.render(), " .  .  . \n .  .  . \n .  .  . \n");

    let game = initial.take_actions(&[4, 0, 1, 7]);
    assert_eq!(game.render(), " O  X  . \n .  X  . \n .  O  . \n");
}

#[test]
fn new_game_is_empty_with_x_to_move() {
    let initial = Game::new();
    assert_eq!(initial.board, [None; 9]);
    assert_eq!(initial.to_move, Color::X);
}

#[test]
fn switch_alternates() {
    assert_eq!(Color::X.switch(), Color::O);
    assert_eq!(Color::O.switch(), Color::X);
    assert_eq!(Color::X.switch().switch(), Color::X);
}

#[test]
fn take_action_marks_the_cell_and_passes_the_turn() {
    let initial = Game::new();
    let after = initial.take_action(4);
    assert_eq!(after.board, board_of("....X...."));
    assert_eq!(after.to_move, Color::O);
    assert_eq!(initial, Game::new());

    let second = after.take_action(8);
    assert_eq!(second.board, board_of("....X...O"));
    assert_eq!(second.to_move, Color::X);
}

#[test]
fn take_actions_is_take_action_in_order() {
    let initial = Game::new();
    assert_eq!(initial.take_actions(&[]), initial);
    assert_eq!(
        initial.take_actions(&[4, 0, 1]),
        initial.take_action(4).take_action(0).take_action(1)
    );
    assert_ne!(initial.take_actions(&[4, 0]), initial.take_actions(&[0, 4]));
}

#[test]
fn try_take_action_refuses_an_occupied_cell() {
    let game = Game::new().take_action(4);
    assert_eq!(game.try_take_action(4), Err(IllegalAction { action: 4 }));
}

#[test]
fn try_take_action_refuses_an_index_out_of_range() {
    let game = Game::new();
    assert_eq!(game.try_take_action(9), Err(IllegalAction { action: 9 }));
    assert_eq!(game.try_take_action(usize::MAX), Err(IllegalAction { action: usize::MAX }));
}

#[test]
fn try_take_action_takes_a_legal_action() {
    let game = Game::new().take_action(4);
    assert_eq!(game.try_take_action(8), Ok(game.take_action(8)));
    for action in game.actions() {
        assert_eq!(game.try_take_action(action), Ok(game.take_action(action)));
    }
}

#[test]
fn actions_of_a_full_board_are_none() {
    let draw = Game::new().take_actions(&[4, 0, 2, 6, 3, 5, 1, 7, 8]);
    assert_eq!(draw.actions(), Vec::<usize>::new());
}

#[test]
fn hash_weighs_cell_i_by_three_to_the_i() {
    let weights: [u16; 9] = [1, 3, 9, 27, 81, 243, 729, 2187, 6561];
    for i in 0..9 {
        let mut board = [None; 9];
        board[i] = Some(Color::X);
        assert_eq!(Game { board, to_move: Color::O }.hash(), weights[i]);
        board[i] = Some(Color::O);
        assert_eq!(Game { board, to_move: Color::X }.hash(), 2 * weights[i]);
    }
    assert_eq!(game_of("OOOOOOOOO", Color::X).hash(), 19682);
    assert_eq!(game_of("XXXXXXXXX", Color::X).hash(), 9841);
}

#[test]
fn hash_leaves_the_mover_out() {
    let board = board_of("X...O....");
    assert_eq!(
        Game { board, to_move: Color::X }.hash(),
        Game { board, to_move: Color::O }.hash()
    );
}

#[test]
fn hash_is_a_bijection_on_all_boards() {
    let cells = [None, Some(Color::X), Some(Color::O)];
    let mut seen = vec![false; 19683];
    for key in 0..19683usize {
        let mut board = [None; 9];
        let mut rest = key;
        for cell in board.iter_mut() {
            *cell = cells[rest % 3];
            rest /= 3;
        }
        let hash = Game { board, to_move: Color::X }.hash();
        assert_eq!(hash as usize, key);
        assert!(!seen[hash as usize]);
        seen[hash as usize] = true;
    }
    assert!(seen.iter().all(|&s| s));
}

fn visit(game: Game, seen: &mut Vec<Option<Game>>, count: &mut usize) {
    let key = game.hash() as usize;
    match seen[key] {
        Some(other) => {
            assert_eq!(other, game);
            return;
        }
        None => {
            seen[key] = Some(game);
            *count += 1;
        }
    }
    if game.result().has_ended {
        return;
    }
    for action in game.actions() {
        visit(game.take_action(action), seen, count);
    }
}

#[test]
fn hash_tells_reachable_states_apart() {
    let mut seen: Vec<Option<Game>> = vec![None; 19683];
    let mut count = 0;
    visit(Game::new(), &mut seen, &mut count);
    assert_eq!(count, 5478);
}

#[test]
fn result_finds_each_line_for_each_mark() {
    let lines = [
        [0, 1, 2],
        [3, 4, 5],
        [6, 7, 8],
        [0, 3, 6],
        [1, 4, 7],
        [2, 5, 8],
        [0, 4, 8],
        [2, 4, 6],
    ];
    for line in lines.iter() {
        for mark in [Color::X, Color::O] {
            let mut board = [None; 9];
            for &cell in line.iter() {
                board[cell] = Some(mark);
            }
            let game = Game { board, to_move: mark.switch() };
            assert_eq!(game.result(), GameResult { has_ended: true, winner: Some(mark) });
        }
    }
}

#[test]
fn result_of_a_line_with_two_marks_is_no_win() {
    assert_eq!(
        game_of("XXO......", Color::O).result(),
        GameResult { has_ended: false, winner: None }
    );
    assert_eq!(
        game_of("X...O...X", Color::O).result(),
        GameResult { has_ended: false, winner: None }
    );
}

#[test]
fn result_of_the_middle_row_names_its_own_mark() {
    assert_eq!(
        game_of("X.XOOO..X", Color::X).result(),
        GameResult { has_ended: true, winner: Some(Color::O) }
    );
    assert_eq!(
        game_of("O.....XXX", Color::O).result(),
        GameResult { has_ended: true, winner: Some(Color::X) }
    );
}

#[test]
fn result_of_a_full_board_with_a_line_is_a_win() {
    let game = Game::new().take_actions(&[0, 3, 1, 4, 5, 7, 6, 8, 2]);
    assert_eq!(game.actions(), Vec::<usize>::new());
    assert_eq!(game.board, board_of("XXXOOXXOO"));
    assert_eq!(game.result(), GameResult { has_ended: true, winner: Some(Color::X) });
}

#[test]
fn result_takes_the_first_of_two_owned_rows() {
    assert_eq!(
        game_of("XXXOOO...", Color::X).result(),
        GameResult { has_ended: true, winner: Some(Color::X) }
    );
    assert_eq!(
        game_of("...OOOXXX", Color::X).result(),
        GameResult { has_ended: true, winner: Some(Color::O) }
    );
    assert_eq!(
        game_of("OX.OX.OX.", Color::X).result(),
        GameResult { has_ended: true, winner: Some(Color::O) }
    );
}

#[test]
fn games_end_with_the_ninth_move_at_the_latest() {
    let mut game = Game::new();
    let mut moves = 0;
    while !game.result().has_ended {
        let actions = game.actions();
        assert_eq!(actions.len(), 9 - moves);
        game = game.take_action(actions[actions.len() - 1]);
        moves += 1;
    }
    assert!(moves <= 9);
    let draw = Game::new().take_actions(&[4, 0, 2, 6, 3, 5, 1, 7, 8]);
    assert!(draw.result().has_ended);
    assert_eq!(draw.to_move, Color::O);
}

#[test]
fn render_shows_each_mark_in_its_place() {
    assert_eq!(game_of("XO.......", Color::X).render(), " X  O  . \n .  .  . \n .  .  . \n");
    assert_eq!(game_of("........O", Color::X).render(), " .  .  . \n .  .  . \n .  .  O \n");
    assert_eq!(game_of("XOXOXOXOX", Color::O).render(), " X  O  X \n O  X  O \n X  O  X \n");
    assert_eq!(Game::new().render().len(), 30);
}

fn marks(game: &Game, mark: Color) -> usize {
    game.board.iter().filter(|cell| **cell == Some(mark)).count()
}

fn explore(game: Game, seen: &mut Vec<bool>) {
    let key = game.hash() as usize;
    if seen[key] {
        return;
    }
    seen[key] = true;
    let (xs, os) = (marks(&game, Color::X), marks(&game, Color::O));
    match game.to_move {
        Color::X => assert_eq!(xs, os),
        Color::O => assert_eq!(xs, os + 1),
    }
    assert_eq!(game.actions().len(), 9 - xs - os);
    if game.result().has_ended {
        return;
    }
    let weights: [u16; 9] = [1, 3, 9, 27, 81, 243, 729, 2187, 6561];
    for action in game.actions() {
        let next = game.take_action(action);
        let digit = if game.to_move == Color::X { 1 } else { 2 };
        assert_eq!(next.hash(), game.hash() + digit * weights[action]);
        let winner = next.result().winner;
        assert!(winner == None || winner == Some(game.to_move));
        explore(next, seen);
    }
}

#[test]
fn every_game_keeps_the_turn_and_wins_for_the_mover() {
    let mut seen = vec![false; 19683];
    explore(Game::new(), &mut seen);
}
