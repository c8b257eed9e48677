use advent::strategy::Hand;
use advent::strategy::Outcome;
use advent::strategy::Problem;
use advent::strategy::RockPaperScissors;
use advent::strategy::RoundOutcome;
use advent::strategy::RoundSetup;

#[test]
fn part2_draw() {
    let rounds = "A X
        B Y
        C Z";
    let game = RockPaperScissors::new(rounds, Problem::Part2);

    let outcome = game.run();

    assert_eq!(outcome.winner, Outcome::Draw);
    assert_eq!(outcome.score_myself, 3 + 5 + 7);
    assert_eq!(outcome.score_opponent, 7 + 5 + 3);
}

#[test]
fn part1_myself_wins() {
    let rounds = "B Z
        B Y
        C Z";
    let game = RockPaperScissors::new(rounds, Problem::Part1);

    let outcome = game.run();

    assert_eq!(outcome.winner, Outcome::MyselfWins);
    assert_eq!(outcome.score_myself, 9 + 5 + 6);
    assert_eq!(outcome.score_opponent, 2 + 5 + 6);
}

#[test]
fn part1_draw() {
    let rounds = "A X
        B Y
        C Z";
    let game = RockPaperScissors::new(rounds, Problem::Part1);

    let outcome = game.run();

    assert_eq!(outcome.winner, Outcome::Draw);
    assert_eq!(outcome.score_myself, 4 + 5 + 6);
    assert_eq!(outcome.score_opponent, 4 + 5 + 6);
}

#[test]
fn part1_opponent_wins() {
    let rounds = "B X
        B Y
        C Z";
    let game = RockPaperScissors::new(rounds, Problem::Part1);

    let outcome = game.run();

    assert_eq!(outcome.winner, Outcome::OpponentWins);
    assert_eq!(outcome.score_myself, 1 + 5 + 6);
    assert_eq!(outcome.score_opponent, 8 + 5 + 6);
}

#[test]
fn test_round_setup_match() {
    let round_setups = vec![
        RoundSetup { opponent: Hand::Rock, myself: Hand::Rock },
        RoundSetup { opponent: Hand::Rock, myself: Hand::Paper },
        RoundSetup { opponent: Hand::Rock, myself: Hand::Scissors },
        RoundSetup { opponent: Hand::Paper, myself: Hand::Rock },
        RoundSetup { opponent: Hand::Paper, myself: Hand::Paper },
        RoundSetup { opponent: Hand::Paper, myself: Hand::Scissors },
        RoundSetup { opponent: Hand::Scissors, myself: Hand::Rock },
        RoundSetup { opponent: Hand::Scissors, myself: Hand::Paper },
        RoundSetup { opponent: Hand::Scissors, myself: Hand::Scissors },
    ];
    let expected_outcomes = vec![
        RoundOutcome { winner: Outcome::Draw, score_opponent: 4, score_myself: 4 },
        RoundOutcome { winner: Outcome::MyselfWins, score_opponent: 1, score_myself: 8 },
        RoundOutcome { winner: Outcome::OpponentWins, score_opponent: 7, score_myself: 3 },
        RoundOutcome { winner: Outcome::OpponentWins, score_opponent: 8, score_myself: 1 },
        RoundOutcome { winner: Outcome::Draw, score_opponent: 5, score_myself: 5 },
        RoundOutcome { winner: Outcome::MyselfWins, score_opponent: 2, score_myself: 9 },
        RoundOutcome { winner: Outcome::MyselfWins, score_opponent: 3, score_myself: 7 },
        RoundOutcome { winner: Outcome::OpponentWins, score_opponent: 9, score_myself: 2 },
        RoundOutcome { winner: Outcome::Draw, score_opponent: 6, score_myself: 6 },
    ];

    for (setup, expected) in round_setups.iter().zip(expected_outcomes.iter()) {
        let round_outcome = setup.play();

        assert_eq!(
            round_outcome.winner, expected.winner,
            "Unexpected winner outcome.\nSetup: {:?}\nExpected: {:?}, Actual: {:?}\n",
            setup, expected.winner, round_outcome.winner
        );
        assert_eq!(
            round_outcome.score_opponent, expected.score_opponent,
            "Unexpected score_opponent.\nSetup: {:?}\nExpected: {:?}, Actual: {:?}\n",
            setup, expected.score_opponent, round_outcome.score_opponent
        );
        assert_eq!(
            round_outcome.score_myself, expected.score_myself,
            "Unexpected score_myself.\nSetup: {:?}\nExpected: {:?}, Actual: {:?}\n",
            setup, expected.score_myself, round_outcome.score_myself
        );
    }
}

#[test]
fn test_simple_line_parsing() {
    let rounds = vec!["A X", "A Y", "A Z", "B X", "B Y", "B Z", "C X", "C Y", "C Z"];
    let expected_setups = vec![
        RoundSetup { opponent: Hand::Rock, myself: Hand::Rock },
        RoundSetup { opponent: Hand::Rock, myself: Hand::Paper },
        RoundSetup { opponent: Hand::Rock, myself: Hand::Scissors },
        RoundSetup { opponent: Hand::Paper, myself: Hand::Rock },
        RoundSetup { opponent: Hand::Paper, myself: Hand::Paper },
        RoundSetup { opponent: Hand::Paper, myself: Hand::Scissors },
        RoundSetup { opponent: Hand::Scissors, myself: Hand::Rock },
        RoundSetup { opponent: Hand::Scissors, myself: Hand::Paper },
        RoundSetup { opponent: Hand::Scissors, myself: Hand::Scissors },
    ];

    for (round, expected) in rounds.iter().zip(expected_setups.iter()) {
        let round_setup = RoundSetup::new(round, Problem::Part1);

        assert_eq!(round_setup.opponent, expected.opponent);
        assert_eq!(round_setup.myself, expected.myself);
    }
}
