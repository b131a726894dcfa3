use rl::policy::select_action;
use rl::{Game, IllegalAction, ValueTable};

#[test]
fn unseen_states_have_the_initial_value() {
    let table: ValueTable<f64> = ValueTable::new(0.0);
    assert_eq!(table.get_v(&Game::new()), 0.0);
    assert_eq!(table.get_v(&Game::new().take_actions(&[4, 0, 1, 7])), 0.0);

    let other: ValueTable<i32> = ValueTable::new(-7);
    assert_eq!(other.get_v(&Game::new()), -7);
}

#[test]
fn update_overwrites_the_value_of_the_state() {
    let mut table: ValueTable<f64> = ValueTable::new(0.0);
    let game = Game::new().take_action(4);
    table.update_v(&game, 0.5);
    assert_eq!(table.get_v(&game), 0.5);
    table.update_v(&game, -0.25);
    assert_eq!(table.get_v(&game), -0.25);
}

#[test]
fn update_leaves_other_states_alone() {
    let mut table: ValueTable<f64> = ValueTable::new(0.0);
    let first = Game::new().take_action(4);
    let second = Game::new().take_action(0);
    table.update_v(&first, 1.0);
    assert_eq!(table.get_v(&second), 0.0);
    assert_eq!(table.get_v(&Game::new()), 0.0);
    table.update_v(&second, -1.0);
    assert_eq!(table.get_v(&first), 1.0);
    assert_eq!(table.get_v(&second), -1.0);
}

#[test]
fn values_go_by_the_board_alone() {
    let mut table: ValueTable<f64> = ValueTable::new(0.0);
    let a = Game::new().take_actions(&[4, 0, 8]);
    let b = Game::new().take_actions(&[8, 0, 4]);
    assert_eq!(a, b);
    table.update_v(&a, 0.75);
    assert_eq!(table.get_v(&b), 0.75);
}

#[test]
fn every_board_keeps_its_own_value() {
    let mut table: ValueTable<u16> = ValueTable::new(u16::MAX);
    let mut games = Vec::new();
    let mut frontier = vec![Game::new()];
    while let Some(game) = frontier.pop() {
        if table.get_v(&game) != u16::MAX {
            continue;
        }
        table.update_v(&game, game.hash());
        games.push(game);
        if !game.result().has_ended {
            for action in game.actions() {
                frontier.push(game.take_action(action));
            }
        }
    }
    assert_eq!(games.len(), 5478);
    for game in games.iter() {
        assert_eq!(table.get_v(game), game.hash());
    }
}

#[test]
fn successor_values_follow_the_actions() {
    let mut table: ValueTable<f64> = ValueTable::new(0.0);
    let game = Game::new().take_action(4);
    table.update_v(&game.take_action(0), 0.5);
    table.update_v(&game.take_action(8), -0.5);
    assert_eq!(table.successor_values(&game, &[0, 1, 8]), Ok(vec![0.5, 0.0, -0.5]));
    assert_eq!(table.successor_values(&game, &[8, 0]), Ok(vec![-0.5, 0.5]));
    assert_eq!(table.successor_values(&game, &[]), Ok(vec![]));
}

#[test]
fn successor_values_refuse_the_first_illegal_action() {
    let table: ValueTable<f64> = ValueTable::new(0.0);
    let game = Game::new().take_action(4);
    assert_eq!(table.successor_values(&game, &[0, 4, 9]), Err(IllegalAction { action: 4 }));
    assert_eq!(table.successor_values(&game, &[9, 4]), Err(IllegalAction { action: 9 }));
}

#[test]
fn len_counts_the_boards_with_a_value() {
    let mut table: ValueTable<f64> = ValueTable::new(0.0);
    assert_eq!(table.len(), 0);
    let game = Game::new().take_action(4);
    table.update_v(&game, 0.5);
    assert_eq!(table.len(), 1);
    table.update_v(&game, 0.25);
    assert_eq!(table.len(), 1);
    table.update_v(&Game::new(), 0.0);
    assert_eq!(table.len(), 2);
}

#[test]
fn the_greedy_choice_follows_the_values_of_the_successors() {
    let mut table: ValueTable<i64> = ValueTable::new(0);
    let game = Game::new().take_action(4);
    table.update_v(&game.take_action(2), -3);
    table.update_v(&game.take_action(6), 5);
    table.update_v(&game.take_action(8), -3);
    let actions = game.actions();
    let ranks = table.successor_values(&game, &actions).unwrap();
    assert_eq!(ranks, vec![0, 0, -3, 0, 0, 5, 0, -3]);
    assert_eq!(select_action(false, game.to_move, &actions, &ranks), 2);
    assert_eq!(select_action(false, game.to_move.switch(), &actions, &ranks), 6);
}
