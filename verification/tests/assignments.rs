use advent::assignments::AssignmentPair;
use advent::assignments::Game;

#[test]
fn test_either_contains() {
    let examples = vec![
        ((2, 4), (6, 8), false),
        ((2, 3), (4, 5), false),
        ((5, 7), (7, 9), false),
        ((2, 8), (3, 7), true),
        ((6, 6), (4, 6), true),
        ((2, 6), (4, 8), false),
    ];

    for (a, b, expected) in examples {
        let pair = AssignmentPair::new(a, b);
        assert_eq!(pair.either_contains(), expected);
    }
}

#[test]
fn test_either_overlaps() {
    let examples = vec![
        ((2, 4), (6, 8), false),
        ((2, 3), (4, 5), false),
        ((5, 7), (7, 9), true),
        ((2, 8), (3, 7), true),
        ((6, 6), (4, 6), true),
        ((2, 6), (4, 8), true),
    ];

    for (a, b, expected) in examples {
        let pair = AssignmentPair::new(a, b);
        assert_eq!(pair.either_overlaps(), expected, "did not overlap: {:?} {:?}", a, b);
    }
}

#[test]
fn test_overloaded_truthyness_and_eq_operations() {
    assert_eq!(AssignmentPair::new((2, 4), (6, 8)).is_valid(), true);
    assert_eq!(AssignmentPair::new((0, 0), (0, 0)).is_valid(), true);
    assert_eq!(AssignmentPair::new((0, 0), (0, -1)).is_valid(), false);
    assert_eq!(AssignmentPair::new((0, 0), (-1, 0)).is_valid(), false);
    assert_eq!(AssignmentPair::new((-1, 0), (0, 0)).is_valid(), false);
    assert_eq!(AssignmentPair::new((0, -1), (0, 0)).is_valid(), false);
}

#[test]
fn test_input_pair_parsing() {
    let examples = "
    2-4,6-8
    2-3,4-5
    5-7,7-9
    2-8,3-7
    6-6,4-6
    ";
    let wanted = vec![
        AssignmentPair::new((2, 4), (6, 8)),
        AssignmentPair::new((2, 3), (4, 5)),
        AssignmentPair::new((5, 7), (7, 9)),
        AssignmentPair::new((2, 8), (3, 7)),
        AssignmentPair::new((6, 6), (4, 6)),
    ];
    let game = Game::new(examples);
    assert_eq!(game.pairs.len(), wanted.len());
    for (pair_got, pair_wanted) in game.pairs.iter().zip(wanted.iter()) {
        assert_eq!(pair_got.0, pair_wanted.0);
        assert_eq!(pair_got.1, pair_wanted.1);
    }
}

#[test]
fn test_count_fully_contained_pairs_example() {
    let examples = "
    2-4,6-8
    2-3,4-5
    5-7,7-9
    2-8,3-7
    6-6,4-6
    2-6,4-8";

    let game = Game::new(examples);
    assert_eq!(game.count_fully_contained_pairs(), 2);
}

#[test]
fn test_count_overlaps_example() {
    let examples = "
    2-4,6-8
    2-3,4-5
    5-7,7-9
    2-8,3-7
    6-6,4-6
    2-6,4-8";

    let game = Game::new(examples);
    assert_eq!(game.count_overlapping_pairs(), 4);
}

#[test]
fn assignment_extraction_reads_bounds() {
    assert_eq!(Game::extract_assignment_raw("2-4"), (2, 4));
    assert_eq!(Game::extract_assignment_raw("10-128"), (10, 128));
}
