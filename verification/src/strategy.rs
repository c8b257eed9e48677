//! The hand-game strategy puzzle: each line of the guide names the
//! opponent's hand and a second letter, read either as one's own hand or
//! as the outcome to reach, and the run totals both players' scores.

use core::cmp::Ordering;
use vstd::prelude::*;

use crate::text::chars_of;
use crate::text::lines_of;
use crate::text::skip_blank;
use crate::text::spec_trim;
use crate::text::token_end;
use crate::text::views_of;

verus! {

/// Which reading of the guide's second column is in force.
#[derive(Debug, Clone, Copy, PartialEq, Eq, Structural)]
pub enum Problem {
    Part1,
    Part2,
}

#[derive(Clone, Copy, Debug, PartialEq, Eq, Structural)]
pub enum Hand {
    Rock,
    Paper,
    Scissors,
}

#[derive(Debug, PartialEq, Eq, Structural)]
pub enum Outcome {
    MyselfWins,
    OpponentWins,
    Draw,
}

/// What a hand is worth on its own: one for rock, two for paper, three
/// for scissors.
pub open spec fn hand_score(h: Hand) -> int {
    match h {
        Hand::Rock => 1,
        Hand::Paper => 2,
        Hand::Scissors => 3,
    }
}

/// The round ordering of hands: rock crushes scissors, scissors cut
/// paper, paper wraps rock, and a mirrored hand draws.
pub open spec fn hand_cmp(a: Hand, b: Hand) -> Ordering {
    match (a, b) {
        (Hand::Rock, Hand::Rock) => Ordering::Equal,
        (Hand::Scissors, Hand::Scissors) => Ordering::Equal,
        (Hand::Paper, Hand::Paper) => Ordering::Equal,
        (Hand::Rock, Hand::Scissors) => Ordering::Greater,
        (Hand::Scissors, Hand::Paper) => Ordering::Greater,
        (Hand::Paper, Hand::Rock) => Ordering::Greater,
        (Hand::Rock, Hand::Paper) => Ordering::Less,
        (Hand::Scissors, Hand::Rock) => Ordering::Less,
        (Hand::Paper, Hand::Scissors) => Ordering::Less,
    }
}

impl PartialOrd for Hand {
    fn partial_cmp(&self, other: &Self) -> (r: Option<Ordering>) {
        match (self, other) {
            (Hand::Rock, Hand::Rock) => Some(Ordering::Equal),
            (Hand::Scissors, Hand::Scissors) => Some(Ordering::Equal),
            (Hand::Paper, Hand::Paper) => Some(Ordering::Equal),
            (Hand::Rock, Hand::Scissors) => Some(Ordering::Greater),
            (Hand::Scissors, Hand::Paper) => Some(Ordering::Greater),
            (Hand::Paper, Hand::Rock) => Some(Ordering::Greater),
            (Hand::Rock, Hand::Paper) => Some(Ordering::Less),
            (Hand::Scissors, Hand::Rock) => Some(Ordering::Less),
            (Hand::Paper, Hand::Scissors) => Some(Ordering::Less),
        }
    }
}

impl vstd::std_specs::cmp::PartialOrdSpecImpl for Hand {
    open spec fn obeys_partial_cmp_spec() -> bool {
        true
    }

    open spec fn partial_cmp_spec(&self, other: &Self) -> Option<Ordering> {
        Some(hand_cmp(*self, *other))
    }
}

/// The hand that loses to `opp`.
pub open spec fn losing_hand(opp: Hand) -> Hand {
    match opp {
        Hand::Rock => Hand::Scissors,
        Hand::Paper => Hand::Rock,
        Hand::Scissors => Hand::Paper,
    }
}

/// The hand that beats `opp`.
pub open spec fn winning_hand(opp: Hand) -> Hand {
    match opp {
        Hand::Rock => Hand::Paper,
        Hand::Paper => Hand::Scissors,
        Hand::Scissors => Hand::Rock,
    }
}

/// One guide line read as the two hands of a round: the first token names
/// the opponent's hand; the second names one's own hand directly in the
/// first reading, and the outcome to arrange in the second.
pub open spec fn round_of(s: Seq<char>, problem: Problem) -> Option<(Hand, Hand)> {
    let i0 = skip_blank(s, 0);
    let e0 = token_end(s, i0);
    let i1 = skip_blank(s, e0);
    let e1 = token_end(s, i1);
    let t0 = s.subrange(i0, e0);
    let t1 = s.subrange(i1, e1);
    let opp = if t0 == seq!['A'] {
        Some(Hand::Rock)
    } else if t0 == seq!['B'] {
        Some(Hand::Paper)
    } else if t0 == seq!['C'] {
        Some(Hand::Scissors)
    } else {
        None
    };
    match opp {
        None => None,
        Some(opp) => {
            if t1 == seq!['X'] {
                Some(
                    (
                        opp,
                        match problem {
                            Problem::Part1 => Hand::Rock,
                            Problem::Part2 => losing_hand(opp),
                        },
                    ),
                )
            } else if t1 == seq!['Y'] {
                Some(
                    (
                        opp,
                        match problem {
                            Problem::Part1 => Hand::Paper,
                            Problem::Part2 => opp,
                        },
                    ),
                )
            } else if t1 == seq!['Z'] {
                Some(
                    (
                        opp,
                        match problem {
                            Problem::Part1 => Hand::Scissors,
                            Problem::Part2 => winning_hand(opp),
                        },
                    ),
                )
            } else {
                None
            }
        },
    }
}

/// One round of the guide: who plays what.
#[derive(Debug)]
pub struct RoundSetup {
    pub opponent: Hand,
    pub myself: Hand,
}

/// The result of one round or of a whole game.
#[derive(Debug)]
pub struct RoundOutcome {
    pub winner: Outcome,
    pub score_opponent: i32,
    pub score_myself: i32,
}

pub open spec fn spec_winner(opp: Hand, me: Hand) -> Outcome {
    match hand_cmp(opp, me) {
        Ordering::Equal => Outcome::Draw,
        Ordering::Greater => Outcome::OpponentWins,
        Ordering::Less => Outcome::MyselfWins,
    }
}

/// The opponent's score for a round: the hand's worth plus six for a win
/// and three for a draw.
pub open spec fn spec_score_opponent(opp: Hand, me: Hand) -> int {
    hand_score(opp) + match spec_winner(opp, me) {
        Outcome::OpponentWins => 6int,
        Outcome::Draw => 3int,
        Outcome::MyselfWins => 0int,
    }
}

/// One's own score for a round, mirroring the opponent's.
pub open spec fn spec_score_myself(opp: Hand, me: Hand) -> int {
    hand_score(me) + match spec_winner(opp, me) {
        Outcome::MyselfWins => 6int,
        Outcome::Draw => 3int,
        Outcome::OpponentWins => 0int,
    }
}

fn word1(v: &Vec<char>, a: char) -> (r: bool)
    ensures
        r == (v@ == seq![a]),
{
    if v.len() == 1 && v[0] == a {
        proof {
            assert(v@ =~= seq![a]);
        }
        true
    } else {
        proof {
            assert(seq![a].len() == 1);
        }
        false
    }
}

fn hand_score_of(h: Hand) -> (r: i32)
    ensures
        r == hand_score(h),
{
    match h {
        Hand::Rock => 1,
        Hand::Paper => 2,
        Hand::Scissors => 3,
    }
}

impl RoundSetup {
    /// Reads one guide line; the line must open with a hand letter and an
    /// `X`, `Y` or `Z` token.
    pub fn new(line: &str, problem: Problem) -> (r: RoundSetup)
        requires
            round_of(line@, problem) is Some,
        ensures
            (r.opponent, r.myself) == round_of(line@, problem).unwrap(),
    {
        let cs = chars_of(line);
        let i0 = crate::text::skip_blank_from(&cs, 0);
        let e0 = crate::text::token_end_from(&cs, i0);
        let i1 = crate::text::skip_blank_from(&cs, e0);
        let e1 = crate::text::token_end_from(&cs, i1);
        let t0 = crate::text::subvec(&cs, i0, e0);
        let t1 = crate::text::subvec(&cs, i1, e1);
        let opponent = if word1(&t0, 'A') {
            Hand::Rock
        } else if word1(&t0, 'B') {
            Hand::Paper
        } else if word1(&t0, 'C') {
            Hand::Scissors
        } else {
            vstd::pervasive::unreached()
        };
        let myself = if word1(&t1, 'X') {
            match problem {
                Problem::Part1 => Hand::Rock,
                Problem::Part2 => match opponent {
                    Hand::Rock => Hand::Scissors,
                    Hand::Paper => Hand::Rock,
                    Hand::Scissors => Hand::Paper,
                },
            }
        } else if word1(&t1, 'Y') {
            match problem {
                Problem::Part1 => Hand::Paper,
                Problem::Part2 => opponent,
            }
        } else if word1(&t1, 'Z') {
            match problem {
                Problem::Part1 => Hand::Scissors,
                Problem::Part2 => match opponent {
                    Hand::Rock => Hand::Paper,
                    Hand::Paper => Hand::Scissors,
                    Hand::Scissors => Hand::Rock,
                },
            }
        } else {
            vstd::pervasive::unreached()
        };
        RoundSetup { opponent, myself }
    }

    /// Plays one round and scores both players.
    pub fn play(&self) -> (r: RoundOutcome)
        ensures
            r.winner == spec_winner(self.opponent, self.myself),
            r.score_opponent == spec_score_opponent(self.opponent, self.myself),
            r.score_myself == spec_score_myself(self.opponent, self.myself),
    {
        let winner = match self.opponent.partial_cmp(&self.myself) {
            Some(Ordering::Equal) => Outcome::Draw,
            Some(Ordering::Greater) => Outcome::OpponentWins,
            Some(Ordering::Less) => Outcome::MyselfWins,
            None => vstd::pervasive::unreached(),
        };
        let score_opponent = match winner {
            Outcome::OpponentWins => hand_score_of(self.opponent) + 6,
            Outcome::Draw => hand_score_of(self.opponent) + 3,
            Outcome::MyselfWins => hand_score_of(self.opponent),
        };
        let score_myself = match winner {
            Outcome::MyselfWins => hand_score_of(self.myself) + 6,
            Outcome::Draw => hand_score_of(self.myself) + 3,
            Outcome::OpponentWins => hand_score_of(self.myself),
        };
        RoundOutcome { winner, score_opponent, score_myself }
    }
}

/// The rounds of all guide lines in order, blank lines passed over; a line
/// that is neither blank nor a round fails the whole guide.
pub open spec fn rounds_rec(
    ls: Seq<Seq<char>>,
    problem: Problem,
    k: int,
    acc: Seq<(Hand, Hand)>,
) -> Option<Seq<(Hand, Hand)>>
    decreases ls.len() - k,
{
    if k < 0 || k >= ls.len() {
        Some(acc)
    } else {
        let t = spec_trim(ls[k]);
        if t.len() == 0 {
            rounds_rec(ls, problem, k + 1, acc)
        } else {
            match round_of(t, problem) {
                None => None,
                Some(p) => rounds_rec(ls, problem, k + 1, acc.push(p)),
            }
        }
    }
}

pub open spec fn rounds_of(text: Seq<char>, problem: Problem) -> Option<Seq<(Hand, Hand)>> {
    rounds_rec(lines_of(text), problem, 0, Seq::empty())
}

/// A whole game: the parsed rounds of the guide.
pub struct RockPaperScissors {
    pub rounds_setup: Vec<RoundSetup>,
}

/// The opponent's total over the rounds from `k` on.
pub open spec fn total_opponent(rs: Seq<RoundSetup>, k: int) -> int
    decreases rs.len() - k,
{
    if k < 0 || k >= rs.len() {
        0
    } else {
        spec_score_opponent(rs[k].opponent, rs[k].myself) + total_opponent(rs, k + 1)
    }
}

/// One's own total over the rounds from `k` on.
pub open spec fn total_myself(rs: Seq<RoundSetup>, k: int) -> int
    decreases rs.len() - k,
{
    if k < 0 || k >= rs.len() {
        0
    } else {
        spec_score_myself(rs[k].opponent, rs[k].myself) + total_myself(rs, k + 1)
    }
}

proof fn lemma_total_bounds(rs: Seq<RoundSetup>, k: int)
    requires
        0 <= k <= rs.len(),
    ensures
        0 <= total_opponent(rs, k) <= 9 * (rs.len() - k),
        0 <= total_myself(rs, k) <= 9 * (rs.len() - k),
    decreases rs.len() - k,
{
    if k < rs.len() {
        lemma_total_bounds(rs, k + 1);
    }
}

impl RockPaperScissors {
    /// Reads the whole guide; every non-blank line must be a round.
    pub fn new(rounds: &str, problem: Problem) -> (r: RockPaperScissors)
        requires
            rounds_of(rounds@, problem) is Some,
        ensures
            r.rounds_setup@.map_values(|s: RoundSetup| (s.opponent, s.myself)) == rounds_of(
                rounds@,
                problem,
            ).unwrap(),
    {
        let cs = chars_of(rounds);
        let lines = crate::text::lines_vec(&cs);
        let mut rounds_setup: Vec<RoundSetup> = Vec::new();
        let mut k: usize = 0;
        proof {
            assert(rounds_setup@.map_values(|s: RoundSetup| (s.opponent, s.myself)) =~= Seq::<
                (Hand, Hand),
            >::empty());
        }
        while k < lines.len()
            invariant
                k <= lines@.len(),
                rounds_of(rounds@, problem) is Some,
                rounds_rec(
                    views_of(lines),
                    problem,
                    k as int,
                    rounds_setup@.map_values(|s: RoundSetup| (s.opponent, s.myself)),
                ) == rounds_of(rounds@, problem),
            decreases lines@.len() - k,
        {
            proof {
                assert(views_of(lines)[k as int] == lines@[k as int]@);
            }
            let ghost prev = rounds_setup@.map_values(|s: RoundSetup| (s.opponent, s.myself));
            let t = crate::text::trim_of(&lines[k]);
            if t.len() > 0 {
                let s = crate::text::string_from_chars(&t);
                let setup = RoundSetup::new(s.as_str(), problem);
                rounds_setup.push(setup);
                proof {
                    assert(rounds_setup@.map_values(|s: RoundSetup| (s.opponent, s.myself))
                        =~= prev.push(
                        (rounds_setup@.last().opponent, rounds_setup@.last().myself),
                    ));
                }
            }
            k = k + 1;
        }
        proof {
            assert(views_of(lines).len() == lines@.len());
        }
        RockPaperScissors { rounds_setup }
    }

    /// Totals both players over every round and names the overall winner
    /// by comparing the totals.
    pub fn run(&self) -> (r: RoundOutcome)
        requires
            self.rounds_setup@.len() <= 100_000_000,
        ensures
            r.score_opponent == total_opponent(self.rounds_setup@, 0),
            r.score_myself == total_myself(self.rounds_setup@, 0),
            r.winner == (if total_myself(self.rounds_setup@, 0) == total_opponent(
                self.rounds_setup@,
                0,
            ) {
                Outcome::Draw
            } else if total_myself(self.rounds_setup@, 0) > total_opponent(
                self.rounds_setup@,
                0,
            ) {
                Outcome::MyselfWins
            } else {
                Outcome::OpponentWins
            }),
    {
        let mut score_opponent: i32 = 0;
        let mut score_myself: i32 = 0;
        let mut k: usize = 0;
        while k < self.rounds_setup.len()
            invariant
                k <= self.rounds_setup@.len(),
                self.rounds_setup@.len() <= 100_000_000,
                0 <= score_opponent <= 9 * k,
                0 <= score_myself <= 9 * k,
                score_opponent + total_opponent(self.rounds_setup@, k as int) == total_opponent(
                    self.rounds_setup@,
                    0,
                ),
                score_myself + total_myself(self.rounds_setup@, k as int) == total_myself(
                    self.rounds_setup@,
                    0,
                ),
            decreases self.rounds_setup@.len() - k,
        {
            let round_outcome = self.rounds_setup[k].play();
            score_opponent = score_opponent + round_outcome.score_opponent;
            score_myself = score_myself + round_outcome.score_myself;
            k = k + 1;
        }
        let winner = if score_myself == score_opponent {
            Outcome::Draw
        } else if score_myself > score_opponent {
            Outcome::MyselfWins
        } else {
            Outcome::OpponentWins
        };
        RoundOutcome { winner, score_opponent, score_myself }
    }
}

} // verus!
