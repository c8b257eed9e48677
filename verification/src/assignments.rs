//! The section-assignment puzzle: each line pairs two numeric ranges, and
//! the answers count the pairs where one range contains the other and the
//! pairs that overlap at all.

use vstd::prelude::*;

use crate::text::chars_of;
use crate::text::find_char;
use crate::text::int_str_val;
use crate::text::is_int_str;
use crate::text::lines_of;
use crate::text::spec_trim;
use crate::text::views_of;

verus! {

/// One elf's range of sections: its lower and upper bound.
pub type Assignment = (i32, i32);

/// Does `a` overlap `b`: either bound of `b` falls inside `a`, or `a` lies
/// within `b` entirely.
pub open spec fn spec_overlap(a: Assignment, b: Assignment) -> bool {
    ||| (a.0 <= b.0 && a.1 >= b.0)
    ||| (a.0 >= b.0 && a.1 <= b.1)
    ||| (a.0 <= b.1 && a.1 >= b.1)
}

/// Does `a` contain `b` whole.
pub open spec fn spec_contain(a: Assignment, b: Assignment) -> bool {
    a.0 <= b.0 && a.1 >= b.1
}

/// A pair of assignments as one input line gives them.
#[derive(Debug, Clone, Copy)]
pub struct AssignmentPair(pub Assignment, pub Assignment);

pub open spec fn spec_either_contains(p: AssignmentPair) -> bool {
    spec_contain(p.0, p.1) || spec_contain(p.1, p.0)
}

pub open spec fn spec_either_overlaps(p: AssignmentPair) -> bool {
    spec_overlap(p.0, p.1) || spec_overlap(p.1, p.0)
}

/// A pair counts only when every bound is non-negative; the parser uses a
/// pair of negative bounds to mark a blank line.
pub open spec fn spec_valid(p: AssignmentPair) -> bool {
    (p.0).0 >= 0 && (p.0).1 >= 0 && (p.1).0 >= 0 && (p.1).1 >= 0
}

impl AssignmentPair {
    pub fn new(a: Assignment, b: Assignment) -> (r: AssignmentPair)
        ensures
            r.0 == a,
            r.1 == b,
    {
        AssignmentPair(a, b)
    }

    pub fn overlap(a: &Assignment, b: &Assignment) -> (r: bool)
        ensures
            r == spec_overlap(*a, *b),
    {
        a.0 <= b.0 && a.1 >= b.0 || a.0 >= b.0 && a.1 <= b.1 || a.0 <= b.1 && a.1 >= b.1
    }

    pub fn contain(a: &Assignment, b: &Assignment) -> (r: bool)
        ensures
            r == spec_contain(*a, *b),
    {
        a.0 <= b.0 && a.1 >= b.1
    }

    pub fn either_contains(&self) -> (r: bool)
        ensures
            r == spec_either_contains(*self),
    {
        AssignmentPair::contain(&self.0, &self.1) || AssignmentPair::contain(&self.1, &self.0)
    }

    pub fn either_overlaps(&self) -> (r: bool)
        ensures
            r == spec_either_overlaps(*self),
    {
        AssignmentPair::overlap(&self.0, &self.1) || AssignmentPair::overlap(&self.1, &self.0)
    }

    /// Whether the pair is a real one rather than the blank-line marker.
    pub fn is_valid(&self) -> (r: bool)
        ensures
            r == spec_valid(*self),
    {
        self.0.0 >= 0 && self.0.1 >= 0 && self.1.0 >= 0 && self.1.1 >= 0
    }
}

/// One `lower-upper` range read from a piece of a line: nothing when the
/// dash or a readable number is missing.
pub open spec fn assign_of(p: Seq<char>) -> Option<(int, int)> {
    let h = find_char(p, '-', 0);
    if h >= p.len() {
        None
    } else {
        let lo = p.subrange(0, h);
        let hi = p.subrange(h + 1, find_char(p, '-', h + 1));
        if is_int_str(lo) && i32::MIN <= int_str_val(lo) <= i32::MAX && is_int_str(hi) && i32::MIN
            <= int_str_val(hi) <= i32::MAX {
            Some((int_str_val(lo), int_str_val(hi)))
        } else {
            None
        }
    }
}

/// The pairs of all lines in order: blank lines add nothing, a line without
/// a comma or with an unreadable bound fails the whole list, and a pair
/// with a negative bound is dropped.
pub open spec fn pairs_rec(
    ls: Seq<Seq<char>>,
    k: int,
    acc: Seq<AssignmentPair>,
) -> Option<Seq<AssignmentPair>>
    decreases ls.len() - k,
{
    if k < 0 || k >= ls.len() {
        Some(acc)
    } else {
        let t = spec_trim(ls[k]);
        if t.len() == 0 {
            pairs_rec(ls, k + 1, acc)
        } else {
            let c = find_char(t, ',', 0);
            if c >= t.len() {
                None
            } else {
                let first = assign_of(t.subrange(0, c));
                let second = assign_of(t.subrange(c + 1, find_char(t, ',', c + 1)));
                if first is Some && second is Some {
                    let p = AssignmentPair(
                        (first.unwrap().0 as i32, first.unwrap().1 as i32),
                        (second.unwrap().0 as i32, second.unwrap().1 as i32),
                    );
                    if spec_valid(p) {
                        pairs_rec(ls, k + 1, acc.push(p))
                    } else {
                        pairs_rec(ls, k + 1, acc)
                    }
                } else {
                    None
                }
            }
        }
    }
}

pub open spec fn pairs_of(text: Seq<char>) -> Option<Seq<AssignmentPair>> {
    pairs_rec(lines_of(text), 0, Seq::empty())
}

fn assign_of_vec(p: &Vec<char>) -> (r: Option<(i32, i32)>)
    ensures
        r is Some <==> assign_of(p@) is Some,
        r is Some ==> assign_of(p@).unwrap() == (((r->0).0 as int), ((r->0).1 as int)),
{
    let h = crate::text::find_char_from(p, '-', 0);
    if h >= p.len() {
        return None;
    }
    let h2 = crate::text::find_char_from(p, '-', h + 1);
    let lo = crate::text::subvec(p, 0, h);
    let hi = crate::text::subvec(p, h + 1, h2);
    match (crate::text::parse_i32(&lo), crate::text::parse_i32(&hi)) {
        (Some(a), Some(b)) => Some((a, b)),
        _ => None,
    }
}

/// How many of the pairs satisfy `spec_either_contains`.
pub open spec fn count_contained(ps: Seq<AssignmentPair>, k: int) -> int
    decreases ps.len() - k,
{
    if k < 0 || k >= ps.len() {
        0
    } else {
        (if spec_either_contains(ps[k]) {
            1int
        } else {
            0int
        }) + count_contained(ps, k + 1)
    }
}

/// How many of the pairs satisfy `spec_either_overlaps`.
pub open spec fn count_overlapping(ps: Seq<AssignmentPair>, k: int) -> int
    decreases ps.len() - k,
{
    if k < 0 || k >= ps.len() {
        0
    } else {
        (if spec_either_overlaps(ps[k]) {
            1int
        } else {
            0int
        }) + count_overlapping(ps, k + 1)
    }
}

/// The whole list of assignment pairs read from the input text.
pub struct Game {
    pub pairs: Vec<AssignmentPair>,
}

impl Game {
    /// Reads every line into a pair; the input must hold no line with a
    /// missing comma, a missing dash or an unreadable bound.
    pub fn new(raw_pairs: &str) -> (r: Game)
        requires
            pairs_of(raw_pairs@) is Some,
        ensures
            r.pairs@ == pairs_of(raw_pairs@).unwrap(),
    {
        let cs = chars_of(raw_pairs);
        let lines = crate::text::lines_vec(&cs);
        let mut pairs: Vec<AssignmentPair> = Vec::new();
        let mut k: usize = 0;
        proof {
            assert(pairs@ =~= Seq::<AssignmentPair>::empty());
        }
        while k < lines.len()
            invariant
                k <= lines@.len(),
                pairs_of(raw_pairs@) is Some,
                pairs_rec(views_of(lines), k as int, pairs@) == pairs_of(raw_pairs@),
            decreases lines@.len() - k,
        {
            proof {
                assert(views_of(lines)[k as int] == lines@[k as int]@);
            }
            let t = crate::text::trim_of(&lines[k]);
            if t.len() > 0 {
                let c = crate::text::find_char_from(&t, ',', 0);
                let c2 = crate::text::find_char_from(&t, ',', c + 1);
                let first_raw = crate::text::subvec(&t, 0, c);
                let second_raw = crate::text::subvec(&t, c + 1, c2);
                let first = assign_of_vec(&first_raw);
                let second = assign_of_vec(&second_raw);
                match (first, second) {
                    (Some(a), Some(b)) => {
                        let p = AssignmentPair::new(a, b);
                        if p.is_valid() {
                            pairs.push(p);
                        }
                    },
                    _ => vstd::pervasive::unreached(),
                }
            }
            k = k + 1;
        }
        proof {
            assert(views_of(lines).len() == lines@.len());
        }
        Game { pairs }
    }

    /// Reads one `lower-upper` range; the text must hold a dash and two
    /// readable bounds.
    pub fn extract_assignment_raw(assignment_raw: &str) -> (r: Assignment)
        requires
            assign_of(assignment_raw@) is Some,
        ensures
            assign_of(assignment_raw@).unwrap() == ((r.0 as int), (r.1 as int)),
    {
        let cs = chars_of(assignment_raw);
        assign_of_vec(&cs).unwrap()
    }

    pub fn count_fully_contained_pairs(&self) -> (r: usize)
        ensures
            r == count_contained(self.pairs@, 0),
    {
        let mut count: usize = 0;
        let mut k: usize = 0;
        while k < self.pairs.len()
            invariant
                k <= self.pairs@.len(),
                count <= k,
                count + count_contained(self.pairs@, k as int) == count_contained(self.pairs@, 0),
            decreases self.pairs@.len() - k,
        {
            if self.pairs[k].either_contains() {
                count = count + 1;
            }
            k = k + 1;
        }
        count
    }

    pub fn count_overlapping_pairs(&self) -> (r: usize)
        ensures
            r == count_overlapping(self.pairs@, 0),
    {
        let mut count: usize = 0;
        let mut k: usize = 0;
        while k < self.pairs.len()
            invariant
                k <= self.pairs@.len(),
                count <= k,
                count + count_overlapping(self.pairs@, k as int) == count_overlapping(
                    self.pairs@,
                    0,
                ),
            decreases self.pairs@.len() - k,
        {
            if self.pairs[k].either_overlaps() {
                count = count + 1;
            }
            k = k + 1;
        }
        count
    }
}

} // verus!
