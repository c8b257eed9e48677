use advent::crane::CraneError;
use advent::crane::CrateMover;
use advent::crane::CrateMoverModel;
use advent::crane::Game;
use advent::crane::Move;

#[test]
fn test_game_execute_moves_model9000() {
    let full_example = "
    [D]
[N] [C]
[Z] [M] [P]
 1   2   3

move 1 from 2 to 1
move 3 from 1 to 3
move 2 from 2 to 1
move 1 from 1 to 2";

    let game = Game::new(full_example).unwrap();

    let message = game.find_message(CrateMoverModel::Model9000).unwrap();
    assert_eq!(message, "CMZ");
}

#[test]
fn test_game_execute_moves_model9001() {
    let full_example = "
    [D]
[N] [C]
[Z] [M] [P]
 1   2   3

move 1 from 2 to 1
move 3 from 1 to 3
move 2 from 2 to 1
move 1 from 1 to 2";

    let game = Game::new(full_example).unwrap();

    let message = game.find_message(CrateMoverModel::Model9001).unwrap();
    assert_eq!(message, "MCD");
}

#[test]
fn test_extract_stack_contents() {
    let example = "
    [D]
[N] [C]
[Z] [M] [P]
[A] [B] [C]
 1   2   3";
    let stacks = Game::extract_stack_contents(example).unwrap();
    assert_eq!(stacks[0], vec!['N', 'Z', 'A']);
    assert_eq!(stacks[1], vec!['D', 'C', 'M', 'B']);
    assert_eq!(stacks[2], vec!['P', 'C']);
}

#[test]
fn test_extract_moves_from_game() {
    let example = "move 3 from 4 to 6
move 1 from 5 to 8
move 3 from 7 to 3
move 4 from 5 to 7
move 1 from 7 to 8";
    let want = vec![
        Move { amount: 3, from: 4, to: 6 },
        Move { amount: 1, from: 5, to: 8 },
        Move { amount: 3, from: 7, to: 3 },
        Move { amount: 4, from: 5, to: 7 },
        Move { amount: 1, from: 7, to: 8 },
    ];

    let moves = Game::extract_moves_from_game(example).unwrap();
    assert_eq!(moves.len(), want.len());
    for (m, w) in moves.into_iter().zip(want) {
        assert_eq!(m.amount, w.amount, "amounts did not match");
        assert_eq!(m.from, w.from, "from did not match");
        assert_eq!(m.to, w.to, "to did not match");
    }
}

#[test]
fn test_execute_moves_simple_one_step() {
    let game = CrateMover::new(
        vec![vec!['N', 'Z'], vec!['D', 'C', 'M'], vec!['P']],
        CrateMoverModel::Model9000,
    );
    let moves = vec![Move { amount: 1, from: 2, to: 1 }];
    let expected = vec![vec!['D', 'N', 'Z'], vec!['C', 'M'], vec!['P']];

    let new_stack = game.execute_moves(moves).unwrap();
    assert_eq!(new_stack, expected);
}

#[test]
fn test_execute_moves_simple_two_steps() {
    let game = CrateMover::new(
        vec![vec!['N', 'Z'], vec!['D', 'C', 'M'], vec!['P']],
        CrateMoverModel::Model9000,
    );
    let moves = vec![
        Move { amount: 1, from: 2, to: 1 },
        Move { amount: 3, from: 1, to: 3 },
    ];
    let expected = vec![vec![], vec!['C', 'M'], vec!['Z', 'N', 'D', 'P']];

    let new_stack = game.execute_moves(moves).unwrap();
    assert_eq!(new_stack, expected);
}

#[test]
fn test_execute_moves_simple_three_steps() {
    let game = CrateMover::new(
        vec![vec!['N', 'Z'], vec!['D', 'C', 'M'], vec!['P']],
        CrateMoverModel::Model9000,
    );
    let moves = vec![
        Move { amount: 1, from: 2, to: 1 },
        Move { amount: 3, from: 1, to: 3 },
        Move { amount: 2, from: 2, to: 1 },
    ];
    let expected = vec![vec!['M', 'C'], vec![], vec!['Z', 'N', 'D', 'P']];

    let new_stack = game.execute_moves(moves).unwrap();
    assert_eq!(new_stack, expected);
}

#[test]
fn test_execute_moves_simple_four_steps() {
    let game = CrateMover::new(
        vec![vec!['N', 'Z'], vec!['D', 'C', 'M'], vec!['P']],
        CrateMoverModel::Model9000,
    );
    let moves = vec![
        Move { amount: 1, from: 2, to: 1 },
        Move { amount: 3, from: 1, to: 3 },
        Move { amount: 2, from: 2, to: 1 },
        Move { amount: 1, from: 1, to: 2 },
    ];
    let expected = vec![vec!['C'], vec!['M'], vec!['Z', 'N', 'D', 'P']];

    let new_stack = game.execute_moves(moves).unwrap();
    assert_eq!(new_stack, expected);
}

#[test]
fn crane_layout_column_count_matches_labels() {
    let stacks = Game::extract_stack_contents("    [D]\n[N] [C]\n[Z] [M] [P]\n 1   2   3").unwrap();
    assert_eq!(stacks.len(), 3);
}

#[test]
fn crane_layout_keeps_empty_column() {
    let stacks = Game::extract_stack_contents("[A]\n 1   2").unwrap();
    assert_eq!(stacks, vec![vec!['A'], vec![]]);
}

#[test]
fn crane_batch_mode_preserves_order_and_single_mode_reverses() {
    let mover = CrateMover::new(vec![vec!['a', 'b'], vec!['x']], CrateMoverModel::Model9001);
    let moved = mover.execute_moves(vec![Move { amount: 2, from: 1, to: 2 }]).unwrap();
    assert_eq!(moved, vec![vec![], vec!['a', 'b', 'x']]);

    let mover = CrateMover::new(vec![vec!['a', 'b'], vec!['x']], CrateMoverModel::Model9000);
    let moved = mover.execute_moves(vec![Move { amount: 2, from: 1, to: 2 }]).unwrap();
    assert_eq!(moved, vec![vec![], vec!['b', 'a', 'x']]);
}

#[test]
fn crane_zero_moves_leave_stacks_unchanged() {
    let stacks = vec![vec!['N', 'Z'], vec!['D'], vec![]];
    let mover = CrateMover::new(stacks.clone(), CrateMoverModel::Model9000);
    assert_eq!(mover.execute_moves(vec![]).unwrap(), stacks);
}

#[test]
fn crane_whole_stack_round_trip_restores_stacks() {
    let stacks = vec![vec!['A', 'B', 'C'], vec![]];
    let out = Move { amount: 3, from: 1, to: 2 };
    let back = Move { amount: 3, from: 2, to: 1 };
    for model in [CrateMoverModel::Model9000, CrateMoverModel::Model9001] {
        let mover = CrateMover::new(stacks.clone(), model);
        assert_eq!(mover.execute_moves(vec![out, back]).unwrap(), stacks);
    }
}

#[test]
fn crane_non_numeric_quantity_is_a_parse_error() {
    assert_eq!(
        Game::extract_moves_from_game("move X from 2 to 1").unwrap_err(),
        CraneError::Parse
    );
    let game = Game::new("[A] [B]\n 1   2\n\nmove X from 2 to 1").unwrap();
    assert_eq!(
        game.find_message(CrateMoverModel::Model9000).unwrap_err(),
        CraneError::Parse
    );
}

#[test]
fn crane_oversized_quantity_is_a_parse_error() {
    assert_eq!(
        Game::extract_moves_from_game("move 99999999999999999999999 from 1 to 2").unwrap_err(),
        CraneError::Parse
    );
}

#[test]
fn crane_shapeless_lines_are_skipped() {
    let moves = Game::extract_moves_from_game("\nnothing to see\nmove 1 from 2 to 3\n").unwrap();
    assert_eq!(moves, vec![Move { amount: 1, from: 2, to: 3 }]);
}

#[test]
fn crane_too_many_units_is_a_bounds_error() {
    let mover = CrateMover::new(vec![vec!['A', 'B'], vec![]], CrateMoverModel::Model9001);
    assert_eq!(
        mover.execute_moves(vec![Move { amount: 5, from: 1, to: 2 }]).unwrap_err(),
        CraneError::Bounds
    );
    let game = Game::new("[A]\n[B]\n 1   2\n\nmove 5 from 1 to 2").unwrap();
    assert_eq!(
        game.find_message(CrateMoverModel::Model9000).unwrap_err(),
        CraneError::Bounds
    );
}

#[test]
fn crane_unknown_column_is_a_bounds_error() {
    let mover = CrateMover::new(vec![vec!['A']], CrateMoverModel::Model9000);
    assert_eq!(
        mover.execute_moves(vec![Move { amount: 1, from: 1, to: 4 }]).unwrap_err(),
        CraneError::Bounds
    );
    assert_eq!(
        CrateMover::new(vec![vec!['A']], CrateMoverModel::Model9000)
            .execute_moves(vec![Move { amount: 1, from: 0, to: 1 }])
            .unwrap_err(),
        CraneError::Bounds
    );
}

#[test]
fn crane_empty_column_at_summary_is_an_error() {
    let game = Game::new("[A]\n 1   2\n\nmove 0 from 1 to 2").unwrap();
    assert_eq!(
        game.find_message(CrateMoverModel::Model9001).unwrap_err(),
        CraneError::EmptySummary
    );
}

#[test]
fn crane_missing_separator_is_a_format_error() {
    assert_eq!(Game::new("[A]\n 1").unwrap_err(), CraneError::Format);
    assert_eq!(Game::new("").unwrap_err(), CraneError::Format);
}

#[test]
fn crane_missing_label_row_is_a_format_error() {
    assert_eq!(
        Game::extract_stack_contents("[A] [B]").unwrap_err(),
        CraneError::Format
    );
}

#[test]
fn crane_split_keeps_block_text() {
    let (stacks_raw, moves_raw) = Game::parse_game_input("\n[A]\n 1\n\nmove 1 from 1 to 1").unwrap();
    assert_eq!(stacks_raw, "[A]\n 1");
    assert_eq!(moves_raw, "move 1 from 1 to 1");
}

#[test]
fn crane_stack_item_reads_bracketed_letter() {
    assert_eq!(advent::crane::extract_stack_item("[D] ".to_string()), 'D');
    assert_eq!(advent::crane::extract_stack_item("[8] ".to_string()), '8');
}
