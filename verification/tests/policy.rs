use rl::policy::{decide, greedy_index, rank_of_bits, select_action};
use rl::Color;

#[test]
fn greedy_index_of_x_is_the_first_greatest() {
    assert_eq!(greedy_index(Color::X, &[0, 5, 3, 5, -1]), 1);
    assert_eq!(greedy_index(Color::X, &[7]), 0);
    assert_eq!(greedy_index(Color::X, &[2, 2, 2]), 0);
    assert_eq!(greedy_index(Color::X, &[-3, -2, -1]), 2);
    assert_eq!(greedy_index(Color::X, &[i64::MIN, i64::MAX, i64::MAX]), 1);
}

#[test]
fn greedy_index_of_o_is_the_first_least() {
    assert_eq!(greedy_index(Color::O, &[0, -5, 3, -5, 1]), 1);
    assert_eq!(greedy_index(Color::O, &[7]), 0);
    assert_eq!(greedy_index(Color::O, &[2, 2, 2]), 0);
    assert_eq!(greedy_index(Color::O, &[3, 2, 1]), 2);
    assert_eq!(greedy_index(Color::O, &[i64::MAX, i64::MIN, i64::MIN]), 1);
}

#[test]
fn decide_takes_the_action_drawn() {
    assert_eq!(decide(Some(6), Color::X, &[2, 6, 8], &[9, 0, 0]), 6);
    assert_eq!(decide(Some(8), Color::O, &[2, 6, 8], &[0, 9, 9]), 8);
}

#[test]
fn decide_without_a_draw_is_greedy() {
    assert_eq!(decide(None, Color::X, &[2, 6, 8], &[0, 9, 9]), 6);
    assert_eq!(decide(None, Color::O, &[2, 6, 8], &[0, 9, -9]), 8);
    assert_eq!(decide(None, Color::O, &[2, 6, 8], &[1, 1, 1]), 2);
}

#[test]
fn select_action_without_exploring_is_greedy() {
    for _ in 0..50 {
        assert_eq!(select_action(false, Color::X, &[0, 3, 5, 7], &[1, 4, 4, -2]), 3);
        assert_eq!(select_action(false, Color::O, &[0, 3, 5, 7], &[1, 4, 4, -2]), 7);
    }
}

#[test]
fn select_action_exploring_draws_among_the_actions() {
    let actions = [1, 2, 5, 6, 8];
    let ranks = [0, 0, 0, 0, 0];
    let mut seen = [false; 9];
    for _ in 0..2000 {
        let chosen = select_action(true, Color::X, &actions, &ranks);
        assert!(actions.contains(&chosen));
        seen[chosen] = true;
    }
    for action in actions.iter() {
        assert!(seen[*action]);
    }
}

#[test]
fn select_action_with_one_action_has_no_choice() {
    assert_eq!(select_action(true, Color::O, &[7], &[3]), 7);
    assert_eq!(select_action(false, Color::O, &[7], &[3]), 7);
}

#[test]
fn rank_of_bits_reads_sign_and_magnitude() {
    assert_eq!(rank_of_bits(0), 0);
    assert_eq!(rank_of_bits(1), 1);
    assert_eq!(rank_of_bits(0x7fff_ffff_ffff_ffff), i64::MAX);
    assert_eq!(rank_of_bits(0x8000_0000_0000_0000), 0);
    assert_eq!(rank_of_bits(0x8000_0000_0000_0001), -1);
    assert_eq!(rank_of_bits(u64::MAX), -i64::MAX);
    assert_eq!(rank_of_bits(1.0f64.to_bits()), 0x3ff0_0000_0000_0000);
    assert_eq!(rank_of_bits((-1.0f64).to_bits()), -0x3ff0_0000_0000_0000);
}

#[test]
fn ranks_order_as_the_numbers_do() {
    let numbers = [
        f64::NEG_INFINITY,
        f64::MIN,
        -1.0,
        -0.75,
        -f64::MIN_POSITIVE,
        -5e-324,
        -0.0,
        0.0,
        5e-324,
        f64::MIN_POSITIVE,
        0.1,
        0.9,
        1.0,
        f64::MAX,
        f64::INFINITY,
    ];
    for a in numbers.iter() {
        for b in numbers.iter() {
            let (ra, rb) = (rank_of_bits(a.to_bits()), rank_of_bits(b.to_bits()));
            assert_eq!(ra < rb, a < b);
            assert_eq!(ra == rb, a == b);
            assert_eq!(ra > rb, a > b);
        }
    }
}

#[test]
fn the_greedy_choice_among_numbers_is_the_first_best() {
    let values = [0.0, -0.0, 0.25, 0.25, -0.5];
    let ranks: Vec<i64> = values.iter().map(|v: &f64| rank_of_bits(v.to_bits())).collect();
    let actions = [1, 3, 4, 6, 8];
    assert_eq!(select_action(false, Color::X, &actions, &ranks), 4);
    assert_eq!(select_action(false, Color::O, &actions, &ranks), 8);
    let zeros: Vec<i64> = [-0.0, 0.0].iter().map(|v: &f64| rank_of_bits(v.to_bits())).collect();
    assert_eq!(select_action(false, Color::X, &[5, 7], &zeros), 5);
    assert_eq!(select_action(false, Color::O, &[5, 7], &zeros), 5);
}
