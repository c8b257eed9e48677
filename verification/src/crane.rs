//! The crane rearrangement puzzle: a drawing of labelled stacks of crates is
//! replayed against a list of `move` instructions under one of two crane
//! models, and the answer is the word spelled by the top crate of each stack.
//!
//! The whole pipeline is specified over sequences of characters: the layout
//! parser, the instruction scanner, the simulator and the summariser each
//! mirror a specification function, and `Game::find_message` ties them into
//! one contract.

use vstd::prelude::*;

use crate::text::all_blank;
use crate::text::chars_of;
use crate::text::views_of;
use crate::text::digits_val;
use crate::text::is_digit;
use crate::text::is_digits;
use crate::text::lines_of;
use crate::text::skip_blank;
use crate::text::token_end;

verus! {

/// The ways a run can fail: the input has no layout/instruction structure,
/// an instruction holds an unreadable number, an instruction asks for a
/// stack or an amount that is not there, or a final stack has no top crate.
#[derive(Clone, Copy, Debug, PartialEq, Eq, Structural)]
pub enum CraneError {
    Format,
    Parse,
    Bounds,
    EmptySummary,
}

/// One parsed instruction, with the stack positions still in their
/// external one-based form.
#[derive(Clone, Copy, Debug, PartialEq, Eq, Structural)]
pub struct Move {
    pub amount: usize,
    pub from: usize,
    pub to: usize,
}

/// Which crane does the moving: the model 9000 lifts one crate at a time
/// (reversing each batch), the model 9001 lifts a whole batch at once
/// (keeping its order).
#[derive(Clone, Copy, Debug, PartialEq, Eq, Structural)]
pub enum CrateMoverModel {
    Model9000,
    Model9001,
}

/// An instruction is applicable when both positions name a stack and the
/// source stack holds at least the requested number of crates.
pub open spec fn move_ok(stacks: Seq<Seq<char>>, m: Move) -> bool {
    &&& 1 <= m.from <= stacks.len()
    &&& 1 <= m.to <= stacks.len()
    &&& m.amount <= stacks[m.from - 1].len()
}

/// How a lifted batch lands on the destination: reversed for the
/// one-at-a-time crane, unchanged for the batch crane.
pub open spec fn moved_block(block: Seq<char>, model: CrateMoverModel) -> Seq<char> {
    match model {
        CrateMoverModel::Model9000 => block.reverse(),
        CrateMoverModel::Model9001 => block,
    }
}

/// One instruction applied to the stacks: the first `amount` crates leave
/// the source, and land (as `moved_block` has it) on top of the destination.
/// The source is shrunk first, so a move within one stack is well defined.
pub open spec fn apply_move(stacks: Seq<Seq<char>>, m: Move, model: CrateMoverModel) -> Seq<
    Seq<char>,
>
    recommends
        move_ok(stacks, m),
{
    let src = stacks[m.from - 1];
    let s1 = stacks.update(m.from - 1, src.skip(m.amount as int));
    s1.update(m.to - 1, moved_block(src.take(m.amount as int), model) + s1[m.to - 1])
}

/// The instructions replayed in order; the first inapplicable one makes the
/// whole run fail.
pub open spec fn apply_moves(
    stacks: Seq<Seq<char>>,
    moves: Seq<Move>,
    model: CrateMoverModel,
) -> Option<Seq<Seq<char>>>
    decreases moves.len(),
{
    if moves.len() == 0 {
        Some(stacks)
    } else if !move_ok(stacks, moves[0]) {
        None
    } else {
        apply_moves(apply_move(stacks, moves[0], model), moves.skip(1), model)
    }
}

/// A crane together with the stacks it works on.
pub struct CrateMover {
    pub stacks: Vec<Vec<char>>,
    pub model: CrateMoverModel,
}

impl CrateMover {
    pub fn new(stacks: Vec<Vec<char>>, model: CrateMoverModel) -> (r: CrateMover)
        ensures
            r.stacks == stacks,
            r.model == model,
    {
        CrateMover { stacks, model }
    }

    /// Replays the instructions against a copy of the stacks; fails with a
    /// bounds error exactly when some instruction is inapplicable when its
    /// turn comes.
    pub fn execute_moves(&self, moves: Vec<Move>) -> (r: Result<Vec<Vec<char>>, CraneError>)
        ensures
            r is Ok <==> apply_moves(views_of(self.stacks), moves@, self.model) is Some,
            r is Ok ==> views_of(r->Ok_0) == apply_moves(
                views_of(self.stacks),
                moves@,
                self.model,
            ).unwrap(),
            r is Err ==> r->Err_0 == CraneError::Bounds,
    {
        let mut stacks_new: Vec<Vec<char>> = Vec::new();
        let mut c: usize = 0;
        while c < self.stacks.len()
            invariant
                c <= self.stacks@.len(),
                stacks_new@.len() == c,
                views_of(stacks_new) == views_of(self.stacks).take(c as int),
            decreases self.stacks@.len() - c,
        {
            stacks_new.push(crate::text::subvec(&self.stacks[c], 0, self.stacks[c].len()));
            c = c + 1;
            proof {
                assert(views_of(stacks_new) =~~= views_of(self.stacks).take(c as int));
            }
        }
        proof {
            assert(views_of(stacks_new) =~~= views_of(self.stacks));
            assert(moves@.skip(0) =~= moves@);
        }
        let mut k: usize = 0;
        while k < moves.len()
            invariant
                k <= moves@.len(),
                stacks_new@.len() == self.stacks@.len(),
                apply_moves(views_of(stacks_new), moves@.skip(k as int), self.model)
                    == apply_moves(views_of(self.stacks), moves@, self.model),
            decreases moves@.len() - k,
        {
            let m = moves[k];
            proof {
                assert(moves@.skip(k as int)[0] == moves@[k as int]);
                assert(moves@.skip(k as int).skip(1) =~= moves@.skip(k as int + 1));
                assert(views_of(stacks_new).len() == stacks_new@.len());
            }
            if m.from < 1 || m.from > stacks_new.len() || m.to < 1 || m.to > stacks_new.len() {
                proof {
                    assert(!move_ok(views_of(stacks_new), m));
                    assert(apply_moves(views_of(stacks_new), moves@.skip(k as int), self.model)
                        is None);
                }
                return Err(CraneError::Bounds);
            }
            let src_idx = m.from - 1;
            let dst_idx = m.to - 1;
            if m.amount > stacks_new[src_idx].len() {
                proof {
                    assert(views_of(stacks_new)[src_idx as int] == stacks_new@[src_idx as int]@);
                    assert(!move_ok(views_of(stacks_new), m));
                    assert(apply_moves(views_of(stacks_new), moves@.skip(k as int), self.model)
                        is None);
                }
                return Err(CraneError::Bounds);
            }
            let ghost before = views_of(stacks_new);
            let moved = crate::text::vec_take(&stacks_new[src_idx], m.amount);
            let rest = crate::text::vec_skip(&stacks_new[src_idx], m.amount);
            stacks_new.set(src_idx, rest);
            let block = match self.model {
                CrateMoverModel::Model9000 => crate::text::vec_reverse(&moved),
                CrateMoverModel::Model9001 => moved,
            };
            let dest_new = crate::text::vec_concat(&block, &stacks_new[dst_idx]);
            stacks_new.set(dst_idx, dest_new);
            proof {
                assert(views_of(stacks_new) =~~= apply_move(before, m, self.model));
            }
            k = k + 1;
        }
        proof {
            assert(moves@.skip(moves@.len() as int) =~= Seq::<Move>::empty());
        }
        Ok(stacks_new)
    }
}

fn word4(v: &Vec<char>, a: char, b: char, c: char, d: char) -> (r: bool)
    ensures
        r == (v@ == seq![a, b, c, d]),
{
    if v.len() == 4 && v[0] == a && v[1] == b && v[2] == c && v[3] == d {
        proof {
            assert(v@ =~= seq![a, b, c, d]);
        }
        true
    } else {
        proof {
            assert(seq![a, b, c, d].len() == 4);
        }
        false
    }
}

fn word2(v: &Vec<char>, a: char, b: char) -> (r: bool)
    ensures
        r == (v@ == seq![a, b]),
{
    if v.len() == 2 && v[0] == a && v[1] == b {
        proof {
            assert(v@ =~= seq![a, b]);
        }
        true
    } else {
        proof {
            assert(seq![a, b].len() == 2);
        }
        false
    }
}

/// The six blank-separated fields an instruction line must open with: the
/// words `move`, `from` and `to` with a token after each; anything past the
/// last token is ignored.
pub open spec fn move_tokens(s: Seq<char>) -> Option<(Seq<char>, Seq<char>, Seq<char>)> {
    let i0 = skip_blank(s, 0);
    let e0 = token_end(s, i0);
    let i1 = skip_blank(s, e0);
    let e1 = token_end(s, i1);
    let i2 = skip_blank(s, e1);
    let e2 = token_end(s, i2);
    let i3 = skip_blank(s, e2);
    let e3 = token_end(s, i3);
    let i4 = skip_blank(s, e3);
    let e4 = token_end(s, i4);
    let i5 = skip_blank(s, e4);
    let e5 = token_end(s, i5);
    if s.subrange(i0, e0) == seq!['m', 'o', 'v', 'e'] && s.subrange(i2, e2) == seq![
        'f',
        'r',
        'o',
        'm',
    ] && s.subrange(i4, e4) == seq!['t', 'o'] && i1 < e1 && i3 < e3 && i5 < e5 {
        Some((s.subrange(i1, e1), s.subrange(i3, e3), s.subrange(i5, e5)))
    } else {
        None
    }
}

/// What one line contributes: `None` when the line has no instruction shape
/// (it is skipped), `Some(None)` when it has the shape but a number cannot
/// be read as a count, and `Some(Some(m))` for a well-formed instruction.
pub open spec fn line_instruction(s: Seq<char>) -> Option<Option<Move>> {
    match move_tokens(s) {
        None => None,
        Some(t) => {
            if is_digits(t.0) && digits_val(t.0) <= usize::MAX && is_digits(t.1) && digits_val(t.1)
                <= usize::MAX && is_digits(t.2) && digits_val(t.2) <= usize::MAX {
                Some(
                    Some(
                        Move {
                            amount: digits_val(t.0) as usize,
                            from: digits_val(t.1) as usize,
                            to: digits_val(t.2) as usize,
                        },
                    ),
                )
            } else {
                Some(None)
            }
        },
    }
}

/// The instructions of all lines in order; the first bad number fails the
/// whole list, and shapeless lines are passed over.
pub open spec fn moves_rec(ls: Seq<Seq<char>>, k: int, acc: Seq<Move>) -> Option<Seq<Move>>
    decreases ls.len() - k,
{
    if k < 0 || k >= ls.len() {
        Some(acc)
    } else {
        match line_instruction(ls[k]) {
            None => moves_rec(ls, k + 1, acc),
            Some(None) => None,
            Some(Some(m)) => moves_rec(ls, k + 1, acc.push(m)),
        }
    }
}

pub open spec fn moves_of(text: Seq<char>) -> Option<Seq<Move>> {
    moves_rec(lines_of(text), 0, Seq::empty())
}

fn parse_move_line(line: &Vec<char>) -> (r: Option<Option<Move>>)
    ensures
        r == line_instruction(line@),
{
    let i0 = crate::text::skip_blank_from(line, 0);
    let e0 = crate::text::token_end_from(line, i0);
    let i1 = crate::text::skip_blank_from(line, e0);
    let e1 = crate::text::token_end_from(line, i1);
    let i2 = crate::text::skip_blank_from(line, e1);
    let e2 = crate::text::token_end_from(line, i2);
    let i3 = crate::text::skip_blank_from(line, e2);
    let e3 = crate::text::token_end_from(line, i3);
    let i4 = crate::text::skip_blank_from(line, e3);
    let e4 = crate::text::token_end_from(line, i4);
    let i5 = crate::text::skip_blank_from(line, e4);
    let e5 = crate::text::token_end_from(line, i5);
    let t0 = crate::text::subvec(line, i0, e0);
    let t2 = crate::text::subvec(line, i2, e2);
    let t4 = crate::text::subvec(line, i4, e4);
    if !(word4(&t0, 'm', 'o', 'v', 'e') && word4(&t2, 'f', 'r', 'o', 'm') && word2(&t4, 't', 'o')
        && i1 < e1 && i3 < e3 && i5 < e5) {
        return None;
    }
    let t1 = crate::text::subvec(line, i1, e1);
    let t3 = crate::text::subvec(line, i3, e3);
    let t5 = crate::text::subvec(line, i5, e5);
    let amount = crate::text::parse_usize(&t1);
    let from = crate::text::parse_usize(&t3);
    let to = crate::text::parse_usize(&t5);
    match (amount, from, to) {
        (Some(amount), Some(from), Some(to)) => Some(Some(Move { amount, from, to })),
        _ => Some(None),
    }
}

/// One whole puzzle: the raw layout block and the raw instruction block,
/// as the input splitter produced them.
#[derive(Debug)]
pub struct Game {
    pub stacks_raw: String,
    pub moves_raw: String,
}

impl Game {
    /// Scans the instruction block; fails with a parse error exactly when a
    /// line of instruction shape holds an unreadable number.
    pub fn extract_moves_from_game(moves_map: &str) -> (r: Result<Vec<Move>, CraneError>)
        ensures
            r is Ok <==> moves_of(moves_map@) is Some,
            r is Ok ==> r->Ok_0@ == moves_of(moves_map@).unwrap(),
            r is Err ==> r->Err_0 == CraneError::Parse,
    {
        let cs = chars_of(moves_map);
        let lines = crate::text::lines_vec(&cs);
        let mut out: Vec<Move> = Vec::new();
        let mut k: usize = 0;
        proof {
            assert(out@ =~= Seq::<Move>::empty());
        }
        while k < lines.len()
            invariant
                k <= lines@.len(),
                moves_rec(views_of(lines), k as int, out@) == moves_of(moves_map@),
            decreases lines@.len() - k,
        {
            proof {
                assert(views_of(lines).len() == lines@.len());
                assert(views_of(lines)[k as int] == lines@[k as int]@);
            }
            match parse_move_line(&lines[k]) {
                None => {},
                Some(None) => {
                    return Err(CraneError::Parse);
                },
                Some(Some(m)) => {
                    out.push(m);
                },
            }
            k = k + 1;
        }
        proof {
            assert(views_of(lines).len() == lines@.len());
        }
        Ok(out)
    }
}

/// The digit characters of a line, in order.
pub open spec fn digits_in(s: Seq<char>, i: int) -> Seq<char>
    decreases s.len() - i,
{
    if i < 0 || i >= s.len() {
        Seq::empty()
    } else if is_digit(s[i]) {
        seq![s[i]] + digits_in(s, i + 1)
    } else {
        digits_in(s, i + 1)
    }
}

fn digits_in_from(s: &Vec<char>, i: usize) -> (r: Vec<char>)
    requires
        i <= s@.len(),
    ensures
        r@ == digits_in(s@, i as int),
    decreases s@.len() - i,
{
    if i == s.len() {
        Vec::new()
    } else if crate::text::digit_char(s[i]) {
        let mut rest = digits_in_from(s, i + 1);
        rest.insert(0, s[i]);
        proof {
            assert(rest@ =~= seq![s@[i as int]] + digits_in(s@, i as int + 1));
        }
        rest
    } else {
        digits_in_from(s, i + 1)
    }
}

/// The label row: the first line holding a digit, scanned top to bottom,
/// together with its digits; the scan gives up at an empty line that is
/// not the very first.
pub open spec fn label_row(ls: Seq<Seq<char>>, i: int) -> Option<(Seq<char>, int)>
    decreases ls.len() - i,
{
    if i < 0 || i >= ls.len() {
        None
    } else {
        let ds = digits_in(ls[i], 0);
        if ds.len() > 0 {
            Some((ds, i))
        } else if ls[i].len() == 0 && i > 0 {
            None
        } else {
            label_row(ls, i + 1)
        }
    }
}

fn label_row_from(lines: &Vec<Vec<char>>, i: usize) -> (r: Option<(Vec<char>, usize)>)
    requires
        i <= lines@.len(),
    ensures
        r is Some <==> label_row(views_of(*lines), i as int) is Some,
        r is Some ==> label_row(views_of(*lines), i as int).unwrap() == (
            (r->0).0@,
            (r->0).1 as int,
        ),
        r is Some ==> (r->0).1 < lines@.len(),
    decreases lines@.len() - i,
{
    if i == lines.len() {
        None
    } else {
        proof {
            assert(views_of(*lines)[i as int] == lines@[i as int]@);
        }
        let ds = digits_in_from(&lines[i], 0);
        if ds.len() > 0 {
            Some((ds, i))
        } else if lines[i].len() == 0 && i > 0 {
            None
        } else {
            label_row_from(lines, i + 1)
        }
    }
}

/// Scans the layout block for the label row; yields its digits and its
/// line index, as the original drawing numbers its stacks.
pub fn extract_stack_indicies(input: &str) -> (r: Option<(Vec<char>, usize)>)
    ensures
        r is Some <==> label_row(lines_of(input@), 0) is Some,
        r is Some ==> label_row(lines_of(input@), 0).unwrap() == ((r->0).0@, (r->0).1 as int),
{
    let cs = chars_of(input);
    let lines = crate::text::lines_vec(&cs);
    label_row_from(&lines, 0)
}

/// Reads the crate letter out of one four-character field: the character
/// after the opening bracket.
pub fn extract_stack_item(stack_raw: String) -> (r: char)
    requires
        stack_raw@.len() >= 2,
    ensures
        r == stack_raw@[1],
{
    stack_raw.as_str().get_char(1)
}

/// The four-character field of stack `k` within a content row (shorter at
/// the right edge, empty past the end of the line).
pub open spec fn field_of(line: Seq<char>, k: int) -> Seq<char> {
    if k < 0 || 4 * k >= line.len() {
        Seq::empty()
    } else if 4 * k + 4 <= line.len() {
        line.subrange(4 * k, 4 * k + 4)
    } else {
        line.subrange(4 * k, line.len() as int)
    }
}

/// One content row folded into the columns: a blank field adds nothing, a
/// field too short to hold a crate letter is a format fault, and otherwise
/// the character after the bracket joins the bottom of column `k`.
pub open spec fn row_fill(cols: Seq<Seq<char>>, line: Seq<char>, k: int) -> Option<Seq<Seq<char>>>
    decreases cols.len() - k,
{
    if k < 0 || k >= cols.len() {
        Some(cols)
    } else {
        let f = field_of(line, k);
        if all_blank(f) {
            row_fill(cols, line, k + 1)
        } else if f.len() < 2 {
            None
        } else {
            row_fill(cols.update(k, cols[k].push(f[1])), line, k + 1)
        }
    }
}

/// The content rows above the label row folded into the columns, top to
/// bottom.
pub open spec fn rows_fill(
    cols: Seq<Seq<char>>,
    ls: Seq<Seq<char>>,
    r: int,
    stop: int,
) -> Option<Seq<Seq<char>>>
    decreases stop - r,
{
    if r >= stop {
        Some(cols)
    } else {
        match row_fill(cols, ls[r], 0) {
            None => None,
            Some(c2) => rows_fill(c2, ls, r + 1, stop),
        }
    }
}

pub open spec fn empty_columns(n: int) -> Seq<Seq<char>> {
    Seq::new(n as nat, |i: int| Seq::<char>::empty())
}

/// The whole layout block parsed: one column per label digit, filled from
/// the rows above the label row.
pub open spec fn layout_of(text: Seq<char>) -> Option<Seq<Seq<char>>> {
    let ls = lines_of(text);
    match label_row(ls, 0) {
        None => None,
        Some(d) => rows_fill(empty_columns(d.0.len() as int), ls, 0, d.1),
    }
}

fn fill_row(cols: Vec<Vec<char>>, line: &Vec<char>, k: usize) -> (r: Result<
    Vec<Vec<char>>,
    CraneError,
>)
    requires
        k <= cols@.len(),
    ensures
        r is Ok <==> row_fill(views_of(cols), line@, k as int) is Some,
        r is Ok ==> views_of(r->Ok_0) == row_fill(views_of(cols), line@, k as int).unwrap(),
        r is Err ==> r->Err_0 == CraneError::Format,
    decreases cols@.len() - k,
{
    proof {
        assert(views_of(cols).len() == cols@.len());
    }
    if k == cols.len() {
        return Ok(cols);
    }
    let field: Vec<char> = if k > line.len() / 4 {
        Vec::new()
    } else {
        let j = 4 * k;
        let hi = if line.len() - j < 4 {
            line.len()
        } else {
            j + 4
        };
        crate::text::subvec(line, j, hi)
    };
    proof {
        assert(field@ =~= field_of(line@, k as int));
    }
    if crate::text::all_blank_vec(&field) {
        fill_row(cols, line, k + 1)
    } else if field.len() < 2 {
        Err(CraneError::Format)
    } else {
        let c = field[1];
        let mut col = crate::text::subvec(&cols[k], 0, cols[k].len());
        col.push(c);
        let ghost before = views_of(cols);
        let mut cols2 = cols;
        cols2.set(k, col);
        proof {
            assert(views_of(cols2) =~~= before.update(k as int, before[k as int].push(c)));
        }
        fill_row(cols2, line, k + 1)
    }
}

fn fill_rows(cols: Vec<Vec<char>>, lines: &Vec<Vec<char>>, r: usize, stop: usize) -> (res: Result<
    Vec<Vec<char>>,
    CraneError,
>)
    requires
        r <= stop,
        stop <= lines@.len(),
    ensures
        res is Ok <==> rows_fill(views_of(cols), views_of(*lines), r as int, stop as int) is Some,
        res is Ok ==> views_of(res->Ok_0) == rows_fill(
            views_of(cols),
            views_of(*lines),
            r as int,
            stop as int,
        ).unwrap(),
        res is Err ==> res->Err_0 == CraneError::Format,
    decreases stop - r,
{
    if r == stop {
        return Ok(cols);
    }
    proof {
        assert(views_of(*lines)[r as int] == lines@[r as int]@);
    }
    match fill_row(cols, &lines[r], 0) {
        Err(e) => Err(e),
        Ok(c2) => fill_rows(c2, lines, r + 1, stop),
    }
}

impl Game {
    /// Parses the layout block into its columns, top crate first; fails
    /// with a format error exactly when no label row is found or a content
    /// field is cut short.
    pub fn extract_stack_contents(stack_raw: &str) -> (r: Result<Vec<Vec<char>>, CraneError>)
        ensures
            r is Ok <==> layout_of(stack_raw@) is Some,
            r is Ok ==> views_of(r->Ok_0) == layout_of(stack_raw@).unwrap(),
            r is Err ==> r->Err_0 == CraneError::Format,
    {
        let cs = chars_of(stack_raw);
        let lines = crate::text::lines_vec(&cs);
        match label_row_from(&lines, 0) {
            None => Err(CraneError::Format),
            Some((ds, row)) => {
                let n = ds.len();
                let mut cols: Vec<Vec<char>> = Vec::new();
                let mut i: usize = 0;
                while i < n
                    invariant
                        i <= n,
                        cols@.len() == i,
                        views_of(cols) == empty_columns(i as int),
                    decreases n - i,
                {
                    let ghost prev = views_of(cols);
                    cols.push(Vec::new());
                    i = i + 1;
                    proof {
                        assert forall|j: int| 0 <= j < i implies #[trigger] views_of(cols)[j]
                            =~= Seq::<char>::empty() by {
                            if j < i - 1 {
                                assert(views_of(cols)[j] == cols@[j]@);
                                assert(prev[j] == empty_columns(i - 1)[j]);
                            } else {
                                assert(views_of(cols)[j] == cols@[j]@);
                            }
                        }
                        assert(views_of(cols) =~~= empty_columns(i as int));
                    }
                }
                proof {
                    assert(views_of(cols) =~~= empty_columns(ds@.len() as int));
                }
                fill_rows(cols, &lines, 0, row)
            },
        }
    }
}

/// First line at or after `k` that is not blank.
pub open spec fn skip_blank_lines(ls: Seq<Seq<char>>, k: int) -> int
    decreases ls.len() - k,
{
    if k < 0 || k >= ls.len() {
        ls.len() as int
    } else if all_blank(ls[k]) {
        skip_blank_lines(ls, k + 1)
    } else {
        k
    }
}

/// First line at or after `k` with no characters at all.
pub open spec fn find_empty_line(ls: Seq<Seq<char>>, k: int) -> int
    decreases ls.len() - k,
{
    if k < 0 || k >= ls.len() {
        ls.len() as int
    } else if ls[k].len() == 0 {
        k
    } else {
        find_empty_line(ls, k + 1)
    }
}

/// First line at or after `k` with at least one character.
pub open spec fn skip_empty_lines(ls: Seq<Seq<char>>, k: int) -> int
    decreases ls.len() - k,
{
    if k < 0 || k >= ls.len() {
        ls.len() as int
    } else if ls[k].len() == 0 {
        skip_empty_lines(ls, k + 1)
    } else {
        k
    }
}

/// The lines `[k, stop)` joined back with single newlines.
pub open spec fn join_range(ls: Seq<Seq<char>>, k: int, stop: int) -> Seq<char>
    decreases stop - k,
{
    if k >= stop {
        Seq::empty()
    } else if k + 1 == stop {
        ls[k]
    } else {
        ls[k] + seq!['\n'] + join_range(ls, k + 1, stop)
    }
}

/// The two blocks of the input: leading blank lines are dropped, and the
/// text is cut at the first empty line that still has lines after the run
/// of empty lines it opens; nothing when no such separator exists.
pub open spec fn blocks_of(text: Seq<char>) -> Option<(Seq<char>, Seq<char>)> {
    let ls = lines_of(text);
    let d = skip_blank_lines(ls, 0);
    let e = find_empty_line(ls, d);
    if e + 1 < ls.len() {
        let g = skip_empty_lines(ls, e);
        Some((join_range(ls, d, e), join_range(ls, g, ls.len() as int)))
    } else {
        None
    }
}

fn skip_blank_lines_from(lines: &Vec<Vec<char>>, k: usize) -> (r: usize)
    requires
        k <= lines@.len(),
    ensures
        r == skip_blank_lines(views_of(*lines), k as int),
        k <= r <= lines@.len(),
    decreases lines@.len() - k,
{
    proof {
        assert(views_of(*lines).len() == lines@.len());
    }
    if k == lines.len() {
        k
    } else {
        proof {
            assert(views_of(*lines)[k as int] == lines@[k as int]@);
        }
        if crate::text::all_blank_vec(&lines[k]) {
            skip_blank_lines_from(lines, k + 1)
        } else {
            k
        }
    }
}

fn find_empty_line_from(lines: &Vec<Vec<char>>, k: usize) -> (r: usize)
    requires
        k <= lines@.len(),
    ensures
        r == find_empty_line(views_of(*lines), k as int),
        k <= r <= lines@.len(),
    decreases lines@.len() - k,
{
    proof {
        assert(views_of(*lines).len() == lines@.len());
    }
    if k == lines.len() {
        k
    } else {
        proof {
            assert(views_of(*lines)[k as int] == lines@[k as int]@);
        }
        if lines[k].len() == 0 {
            k
        } else {
            find_empty_line_from(lines, k + 1)
        }
    }
}

fn skip_empty_lines_from(lines: &Vec<Vec<char>>, k: usize) -> (r: usize)
    requires
        k <= lines@.len(),
    ensures
        r == skip_empty_lines(views_of(*lines), k as int),
        k <= r <= lines@.len(),
    decreases lines@.len() - k,
{
    proof {
        assert(views_of(*lines).len() == lines@.len());
    }
    if k == lines.len() {
        k
    } else {
        proof {
            assert(views_of(*lines)[k as int] == lines@[k as int]@);
        }
        if lines[k].len() == 0 {
            skip_empty_lines_from(lines, k + 1)
        } else {
            k
        }
    }
}

fn join_lines(lines: &Vec<Vec<char>>, k: usize, stop: usize) -> (r: Vec<char>)
    requires
        stop <= lines@.len(),
    ensures
        r@ == join_range(views_of(*lines), k as int, stop as int),
    decreases stop - k,
{
    if k >= stop {
        Vec::new()
    } else {
        proof {
            assert(views_of(*lines)[k as int] == lines@[k as int]@);
        }
        if k + 1 == stop {
            crate::text::subvec(&lines[k], 0, lines[k].len())
        } else {
            let mut head = crate::text::subvec(&lines[k], 0, lines[k].len());
            head.push('\n');
            let tail = join_lines(lines, k + 1, stop);
            let r = crate::text::vec_concat(&head, &tail);
            proof {
                assert(r@ =~= views_of(*lines)[k as int] + seq!['\n'] + join_range(
                    views_of(*lines),
                    k as int + 1,
                    stop as int,
                ));
            }
            r
        }
    }
}

/// Every stack still holds a crate, so each has a top to read.
pub open spec fn summary_ok(stacks: Seq<Seq<char>>) -> bool {
    forall|i: int| 0 <= i < stacks.len() ==> #[trigger] stacks[i].len() > 0
}

/// The top crate of every stack, in stack order.
pub open spec fn summary_of(stacks: Seq<Seq<char>>) -> Seq<char>
    recommends
        summary_ok(stacks),
{
    Seq::new(stacks.len(), |i: int| stacks[i][0])
}

fn top_crates(stacks: &Vec<Vec<char>>) -> (r: Result<Vec<char>, CraneError>)
    ensures
        r is Ok <==> summary_ok(views_of(*stacks)),
        r is Ok ==> r->Ok_0@ == summary_of(views_of(*stacks)),
        r is Err ==> r->Err_0 == CraneError::EmptySummary,
{
    let mut msg: Vec<char> = Vec::new();
    let mut i: usize = 0;
    while i < stacks.len()
        invariant
            i <= stacks@.len(),
            msg@.len() == i,
            forall|j: int| 0 <= j < i ==> #[trigger] views_of(*stacks)[j].len() > 0,
            forall|j: int| 0 <= j < i ==> #[trigger] msg@[j] == views_of(*stacks)[j][0],
        decreases stacks@.len() - i,
    {
        proof {
            assert(views_of(*stacks)[i as int] == stacks@[i as int]@);
        }
        if stacks[i].len() == 0 {
            return Err(CraneError::EmptySummary);
        }
        msg.push(stacks[i][0]);
        i = i + 1;
    }
    proof {
        assert(views_of(*stacks).len() == stacks@.len());
        assert(msg@ =~= summary_of(views_of(*stacks)));
    }
    Ok(msg)
}

/// The full run on the two raw blocks: parse the layout, scan the
/// instructions, replay them; the first failing stage names the error.
pub open spec fn run_of(
    stacks_raw: Seq<char>,
    moves_raw: Seq<char>,
    model: CrateMoverModel,
) -> Result<Seq<Seq<char>>, CraneError> {
    match layout_of(stacks_raw) {
        None => Err(CraneError::Format),
        Some(st) => match moves_of(moves_raw) {
            None => Err(CraneError::Parse),
            Some(ms) => match apply_moves(st, ms, model) {
                None => Err(CraneError::Bounds),
                Some(fin) => Ok(fin),
            },
        },
    }
}

/// The answer of a run: the word read off the top crates of the final
/// stacks, or the error of the stage that failed.
pub open spec fn message_of(
    stacks_raw: Seq<char>,
    moves_raw: Seq<char>,
    model: CrateMoverModel,
) -> Result<Seq<char>, CraneError> {
    match run_of(stacks_raw, moves_raw, model) {
        Err(e) => Err(e),
        Ok(fin) => if summary_ok(fin) {
            Ok(summary_of(fin))
        } else {
            Err(CraneError::EmptySummary)
        },
    }
}

impl Game {
    /// Splits the raw input at the first blank-line separator after the
    /// leading blank lines; fails with a format error exactly when no
    /// separator leaves two blocks.
    pub fn parse_game_input(input: &str) -> (r: Result<(String, String), CraneError>)
        ensures
            r is Ok <==> blocks_of(input@) is Some,
            r is Ok ==> (r->Ok_0).0@ == blocks_of(input@).unwrap().0,
            r is Ok ==> (r->Ok_0).1@ == blocks_of(input@).unwrap().1,
            r is Err ==> r->Err_0 == CraneError::Format,
    {
        let cs = chars_of(input);
        let lines = crate::text::lines_vec(&cs);
        let d = skip_blank_lines_from(&lines, 0);
        let e = find_empty_line_from(&lines, d);
        if e < lines.len() && e + 1 < lines.len() {
            let g = skip_empty_lines_from(&lines, e);
            let first = join_lines(&lines, d, e);
            let second = join_lines(&lines, g, lines.len());
            Ok(
                (
                    crate::text::string_from_chars(&first),
                    crate::text::string_from_chars(&second),
                ),
            )
        } else {
            Err(CraneError::Format)
        }
    }

    /// Builds a game from the raw input text, keeping the two blocks as
    /// the splitter produced them.
    pub fn new(input: &str) -> (r: Result<Game, CraneError>)
        ensures
            r is Ok <==> blocks_of(input@) is Some,
            r is Ok ==> r->Ok_0.stacks_raw@ == blocks_of(input@).unwrap().0,
            r is Ok ==> r->Ok_0.moves_raw@ == blocks_of(input@).unwrap().1,
            r is Err ==> r->Err_0 == CraneError::Format,
    {
        match Game::parse_game_input(input) {
            Err(e) => Err(e),
            Ok((stacks_raw, moves_raw)) => Ok(Game { stacks_raw, moves_raw }),
        }
    }

    /// Replays the whole game under the given crane model and hands back
    /// the crane with its final stacks.
    pub fn execute_moves(&self, mover_model: CrateMoverModel) -> (r: Result<
        CrateMover,
        CraneError,
    >)
        ensures
            r is Ok <==> run_of(self.stacks_raw@, self.moves_raw@, mover_model) is Ok,
            r is Ok ==> views_of(r->Ok_0.stacks) == run_of(
                self.stacks_raw@,
                self.moves_raw@,
                mover_model,
            )->Ok_0,
            r is Ok ==> r->Ok_0.model == mover_model,
            r is Err ==> r->Err_0 == run_of(self.stacks_raw@, self.moves_raw@, mover_model)->Err_0,
    {
        let stacks = match Game::extract_stack_contents(self.stacks_raw.as_str()) {
            Err(e) => {
                return Err(e);
            },
            Ok(stacks) => stacks,
        };
        let moves = match Game::extract_moves_from_game(self.moves_raw.as_str()) {
            Err(e) => {
                return Err(e);
            },
            Ok(moves) => moves,
        };
        let stacks_collection = CrateMover::new(stacks, mover_model);
        match stacks_collection.execute_moves(moves) {
            Err(e) => Err(e),
            Ok(new_stacks) => Ok(CrateMover { stacks: new_stacks, model: mover_model }),
        }
    }

    /// Runs the game and reads the top crate of every stack, in stack
    /// order, as the answer word.
    pub fn find_message(&self, mover_model: CrateMoverModel) -> (r: Result<String, CraneError>)
        ensures
            r is Ok <==> message_of(self.stacks_raw@, self.moves_raw@, mover_model) is Ok,
            r is Ok ==> r->Ok_0@ == message_of(
                self.stacks_raw@,
                self.moves_raw@,
                mover_model,
            )->Ok_0,
            r is Err ==> r->Err_0 == message_of(
                self.stacks_raw@,
                self.moves_raw@,
                mover_model,
            )->Err_0,
    {
        let stack_collection = match self.execute_moves(mover_model) {
            Err(e) => {
                return Err(e);
            },
            Ok(c) => c,
        };
        match top_crates(&stack_collection.stacks) {
            Err(e) => Err(e),
            Ok(msg) => Ok(crate::text::string_from_chars(&msg)),
        }
    }
}

proof fn lemma_row_fill_len(cols: Seq<Seq<char>>, line: Seq<char>, k: int)
    requires
        row_fill(cols, line, k) is Some,
    ensures
        row_fill(cols, line, k).unwrap().len() == cols.len(),
    decreases cols.len() - k,
{
    if k < 0 || k >= cols.len() {
    } else {
        let f = field_of(line, k);
        if all_blank(f) {
            lemma_row_fill_len(cols, line, k + 1);
        } else {
            lemma_row_fill_len(cols.update(k, cols[k].push(f[1])), line, k + 1);
        }
    }
}

proof fn lemma_rows_fill_len(cols: Seq<Seq<char>>, ls: Seq<Seq<char>>, r: int, stop: int)
    requires
        rows_fill(cols, ls, r, stop) is Some,
    ensures
        rows_fill(cols, ls, r, stop).unwrap().len() == cols.len(),
    decreases stop - r,
{
    if r >= stop {
    } else {
        lemma_row_fill_len(cols, ls[r], 0);
        lemma_rows_fill_len(row_fill(cols, ls[r], 0).unwrap(), ls, r + 1, stop);
    }
}

/// Law: a parsed layout has exactly one column per digit on its label row.
pub proof fn lemma_layout_column_count(text: Seq<char>)
    requires
        layout_of(text) is Some,
    ensures
        label_row(lines_of(text), 0) is Some,
        layout_of(text).unwrap().len() == label_row(lines_of(text), 0).unwrap().0.len(),
{
    let ls = lines_of(text);
    let d = label_row(ls, 0).unwrap();
    lemma_rows_fill_len(empty_columns(d.0.len() as int), ls, 0, d.1);
}

/// Law: a replay never adds or removes a stack; only what the stacks hold
/// changes.
pub proof fn lemma_apply_moves_stack_count(
    stacks: Seq<Seq<char>>,
    moves: Seq<Move>,
    model: CrateMoverModel,
)
    requires
        apply_moves(stacks, moves, model) is Some,
    ensures
        apply_moves(stacks, moves, model).unwrap().len() == stacks.len(),
    decreases moves.len(),
{
    if moves.len() > 0 {
        lemma_apply_moves_stack_count(apply_move(stacks, moves[0], model), moves.skip(1), model);
    }
}

/// Law: one applied instruction leaves the moved crates as the new top of
/// the destination, in their source order under the batch-preserving crane
/// and reversed under the one-at-a-time crane.
pub proof fn lemma_move_order(stacks: Seq<Seq<char>>, m: Move, model: CrateMoverModel)
    requires
        move_ok(stacks, m),
    ensures
        ({
            let moved = stacks[m.from - 1].take(m.amount as int);
            let dest = apply_move(stacks, m, model)[m.to - 1];
            &&& model == CrateMoverModel::Model9001 ==> dest.take(m.amount as int) == moved
            &&& model == CrateMoverModel::Model9000 ==> dest.take(m.amount as int)
                == moved.reverse()
        }),
{
    let moved = stacks[m.from - 1].take(m.amount as int);
    let block = moved_block(moved, model);
    let dest = apply_move(stacks, m, model)[m.to - 1];
    assert(block.len() == m.amount);
    assert(dest.take(m.amount as int) =~= block);
}

/// Law: replaying no instructions leaves the stacks exactly as they were.
pub proof fn lemma_apply_moves_empty(stacks: Seq<Seq<char>>, model: CrateMoverModel)
    ensures
        apply_moves(stacks, Seq::empty(), model) == Some(stacks),
{
}

/// Law: moving a whole stack onto an empty one and straight back restores
/// every stack, under either crane model, since a double reversal cancels.
pub proof fn lemma_move_round_trip(
    stacks: Seq<Seq<char>>,
    out: Move,
    back: Move,
    model: CrateMoverModel,
)
    requires
        1 <= out.from <= stacks.len(),
        1 <= out.to <= stacks.len(),
        out.from != out.to,
        stacks[out.to - 1].len() == 0,
        out.amount == stacks[out.from - 1].len(),
        back.amount == out.amount,
        back.from == out.to,
        back.to == out.from,
    ensures
        apply_moves(stacks, seq![out, back], model) == Some(stacks),
{
    reveal_with_fuel(apply_moves, 4);
    let a = stacks[out.from - 1];
    let block = moved_block(a, model);
    assert(move_ok(stacks, out));
    let s1 = apply_move(stacks, out, model);
    assert(a.take(out.amount as int) =~= a);
    assert(a.skip(out.amount as int) =~= Seq::<char>::empty());
    assert(s1[out.to - 1] =~= block);
    assert(s1[out.from - 1] =~= Seq::<char>::empty());
    assert(move_ok(s1, back));
    let s2 = apply_move(s1, back, model);
    assert(block.take(back.amount as int) =~= block);
    assert(block.skip(back.amount as int) =~= Seq::<char>::empty());
    assert(moved_block(block, model) =~= a);
    assert(s2[out.from - 1] =~= a);
    assert(s2[out.to - 1] =~= stacks[out.to - 1]);
    assert(s2 =~~= stacks);
    assert(seq![out, back][0] == out);
    assert(seq![back][0] == back);
    assert(seq![out, back].skip(1) =~= seq![back]);
    assert(seq![back].skip(1) =~= Seq::<Move>::empty());
    assert(apply_moves(s2, Seq::<Move>::empty(), model) == Some(s2));
}

} // verus!
