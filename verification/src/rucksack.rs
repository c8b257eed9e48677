//! The rucksack puzzle: each line is a bag of items split into two
//! compartments; the item type the compartments share scores by its
//! alphabet priority, and groups of three bags share one badge item.
//!
//! Compartments are kept as first-occurrence, duplicate-free item lists,
//! so membership facts stay in the character sequences of the input.

use vstd::prelude::*;

use crate::text::chars_of;
use crate::text::lines_of;
use crate::text::spec_trim;
use crate::text::views_of;

verus! {

/// The items of a sequence with later repeats dropped, in first-occurrence
/// order.
pub open spec fn dedup_of(s: Seq<char>) -> Seq<char>
    decreases s.len(),
{
    if s.len() == 0 {
        Seq::empty()
    } else {
        let d = dedup_of(s.drop_last());
        if d.contains(s.last()) {
            d
        } else {
            d.push(s.last())
        }
    }
}

/// Deduplication keeps exactly the members.
pub proof fn lemma_dedup_members(s: Seq<char>, c: char)
    ensures
        dedup_of(s).contains(c) <==> s.contains(c),
    decreases s.len(),
{
    if s.len() > 0 {
        lemma_dedup_members(s.drop_last(), c);
        crate::text::lemma_drop_last_contains(s, c);
        crate::text::lemma_push_contains(dedup_of(s.drop_last()), s.last(), c);
    }
}

/// The members of `d` that also occur in `s`, in the order of `d`.
pub open spec fn common_of(d: Seq<char>, s: Seq<char>) -> Seq<char>
    decreases d.len(),
{
    if d.len() == 0 {
        Seq::empty()
    } else {
        let r = common_of(d.drop_last(), s);
        if s.contains(d.last()) {
            r.push(d.last())
        } else {
            r
        }
    }
}

/// The common list holds exactly what both sequences hold.
pub proof fn lemma_common_members(d: Seq<char>, s: Seq<char>, c: char)
    ensures
        common_of(d, s).contains(c) <==> d.contains(c) && s.contains(c),
    decreases d.len(),
{
    if d.len() > 0 {
        lemma_common_members(d.drop_last(), s, c);
        crate::text::lemma_drop_last_contains(d, c);
        if s.contains(d.last()) {
            crate::text::lemma_push_contains(common_of(d.drop_last(), s), d.last(), c);
        }
    }
}

fn contains_char(v: &Vec<char>, c: char) -> (b: bool)
    ensures
        b == v@.contains(c),
{
    let mut i: usize = 0;
    while i < v.len()
        invariant
            i <= v@.len(),
            forall|j: int| 0 <= j < i ==> v@[j] != c,
        decreases v@.len() - i,
    {
        if v[i] == c {
            return true;
        }
        i = i + 1;
    }
    false
}

fn dedup_vec(v: &Vec<char>) -> (r: Vec<char>)
    ensures
        r@ == dedup_of(v@),
{
    let mut out: Vec<char> = Vec::new();
    let mut i: usize = 0;
    proof {
        assert(v@.take(0) =~= Seq::<char>::empty());
        assert(out@ =~= dedup_of(v@.take(0)));
    }
    while i < v.len()
        invariant
            i <= v@.len(),
            out@ == dedup_of(v@.take(i as int)),
        decreases v@.len() - i,
    {
        proof {
            assert(v@.take(i + 1 as int).drop_last() =~= v@.take(i as int));
            assert(v@.take(i + 1 as int).last() == v@[i as int]);
        }
        if !contains_char(&out, v[i]) {
            out.push(v[i]);
        }
        i = i + 1;
    }
    proof {
        assert(v@.take(v@.len() as int) =~= v@);
    }
    out
}

fn retain_in(d: &Vec<char>, s: &Vec<char>) -> (r: Vec<char>)
    ensures
        r@ == common_of(d@, s@),
{
    let mut out: Vec<char> = Vec::new();
    let mut i: usize = 0;
    proof {
        assert(d@.take(0) =~= Seq::<char>::empty());
        assert(out@ =~= common_of(d@.take(0), s@));
    }
    while i < d.len()
        invariant
            i <= d@.len(),
            out@ == common_of(d@.take(i as int), s@),
        decreases d@.len() - i,
    {
        proof {
            assert(d@.take(i + 1 as int).drop_last() =~= d@.take(i as int));
            assert(d@.take(i + 1 as int).last() == d@[i as int]);
        }
        if contains_char(s, d[i]) {
            out.push(d[i]);
        }
        i = i + 1;
    }
    proof {
        assert(d@.take(d@.len() as int) =~= d@);
    }
    out
}

pub open spec fn is_letter(c: char) -> bool {
    ('a' <= c && c <= 'z') || ('A' <= c && c <= 'Z')
}

/// An item's priority: its place in the alphabet, lower case first.
pub open spec fn priority(c: char) -> int
    recommends
        is_letter(c),
{
    if 'a' <= c && c <= 'z' {
        c as int - 'a' as int + 1
    } else {
        c as int - 'A' as int + 27
    }
}

pub open spec fn first_half(s: Seq<char>) -> Seq<char> {
    s.take(s.len() as int / 2)
}

pub open spec fn second_half(s: Seq<char>) -> Seq<char> {
    s.skip(s.len() as int / 2)
}

/// An item type that both compartments of a bag hold.
pub open spec fn common_item(items: Seq<char>, c: char) -> bool {
    first_half(items).contains(c) && second_half(items).contains(c)
}

/// A line makes a rucksack when its trimmed text is non-empty, splits
/// evenly, and the two halves share exactly one item type.
pub open spec fn rucksack_ok(line: Seq<char>) -> bool {
    let t = spec_trim(line);
    &&& t.len() > 0
    &&& t.len() % 2 == 0
    &&& exists|c: char| common_item(t, c)
    &&& forall|c1: char, c2: char| common_item(t, c1) && common_item(t, c2) ==> c1 == c2
}

/// One bag: its items in line order, the two compartments as duplicate-free
/// item lists, and the one item type both compartments hold.
#[derive(Debug)]
pub struct Rucksack {
    pub items: Vec<char>,
    pub compartments: (Vec<char>, Vec<char>),
    pub repetitive_item: char,
}

/// The fields of a bag agree with its item list.
pub open spec fn rucksack_wf(r: Rucksack) -> bool {
    &&& r.items@.len() > 0
    &&& r.items@.len() % 2 == 0
    &&& r.compartments.0@ == dedup_of(first_half(r.items@))
    &&& r.compartments.1@ == dedup_of(second_half(r.items@))
    &&& common_item(r.items@, r.repetitive_item)
}

impl Rucksack {
    /// Reads one line into a bag; the line must satisfy `rucksack_ok`.
    pub fn new(line: &str) -> (r: Rucksack)
        requires
            rucksack_ok(line@),
        ensures
            r.items@ == spec_trim(line@),
            rucksack_wf(r),
    {
        let cs = chars_of(line);
        let t = crate::text::trim_of(&cs);
        let half = t.len() / 2;
        let first = crate::text::subvec(&t, 0, half);
        let second = crate::text::subvec(&t, half, t.len());
        let d1 = dedup_vec(&first);
        let d2 = dedup_vec(&second);
        let inter = retain_in(&d1, &second);
        proof {
            assert(first@ =~= first_half(t@));
            assert(second@ =~= second_half(t@));
            let c = choose|c: char| common_item(t@, c);
            lemma_dedup_members(first@, c);
            lemma_common_members(d1@, second@, c);
            assert(inter@.contains(c));
        }
        let repetitive_item = inter[0];
        proof {
            assert(inter@.contains(inter@[0]));
            lemma_common_members(d1@, second@, inter@[0]);
            lemma_dedup_members(first@, inter@[0]);
        }
        Rucksack { items: t, compartments: (d1, d2), repetitive_item }
    }

    pub fn get_items(&self) -> (r: &Vec<char>)
        ensures
            r@ == self.items@,
    {
        &self.items
    }

    /// The priority of the given item type, or of the bag's repeated item
    /// when no type is given.
    pub fn get_item_priority(item_type: Option<char>, rucksack: Option<&Rucksack>) -> (r: i32)
        requires
            item_type is Some || rucksack is Some,
            is_letter(
                match item_type {
                    Some(c) => c,
                    None => rucksack.unwrap().repetitive_item,
                },
            ),
        ensures
            r == priority(
                match item_type {
                    Some(c) => c,
                    None => rucksack.unwrap().repetitive_item,
                },
            ),
    {
        let item = match item_type {
            Some(c) => c,
            None => rucksack.unwrap().repetitive_item,
        };
        let u = item as u32;
        if u >= 97 {
            (u - 97 + 1) as i32
        } else {
            (u - 65 + 27) as i32
        }
    }
}

/// The trimmed non-blank lines of the notes, each one bag.
pub open spec fn sack_lines_rec(ls: Seq<Seq<char>>, k: int, acc: Seq<Seq<char>>) -> Seq<Seq<char>>
    decreases ls.len() - k,
{
    if k < 0 || k >= ls.len() {
        acc
    } else {
        let t = spec_trim(ls[k]);
        if t.len() == 0 {
            sack_lines_rec(ls, k + 1, acc)
        } else {
            sack_lines_rec(ls, k + 1, acc.push(t))
        }
    }
}

pub open spec fn sack_lines_of(text: Seq<char>) -> Seq<Seq<char>> {
    sack_lines_rec(lines_of(text), 0, Seq::empty())
}

/// Every non-blank line of the notes makes a valid bag.
pub open spec fn all_sacks_ok(text: Seq<char>) -> bool {
    forall|k: int|
        0 <= k < lines_of(text).len() && spec_trim(#[trigger] lines_of(text)[k]).len() > 0
            ==> rucksack_ok(lines_of(text)[k])
}

/// The sum of the repeated items' priorities over the bags from `k` on.
pub open spec fn sum_rep_priorities(rs: Seq<Rucksack>, k: int) -> int
    decreases rs.len() - k,
{
    if k < 0 || k >= rs.len() {
        0
    } else {
        priority(rs[k].repetitive_item) + sum_rep_priorities(rs, k + 1)
    }
}

proof fn lemma_sum_rep_bounds(rs: Seq<Rucksack>, k: int)
    requires
        0 <= k <= rs.len(),
        forall|j: int| 0 <= j < rs.len() ==> is_letter(#[trigger] rs[j].repetitive_item),
    ensures
        0 <= sum_rep_priorities(rs, k) <= 52 * (rs.len() - k),
    decreases rs.len() - k,
{
    if k < rs.len() {
        lemma_sum_rep_bounds(rs, k + 1);
    }
}

/// The first part of the game: every line a bag, scored by its repeated
/// item.
pub struct GamePart1 {
    pub rucksacks: Vec<Rucksack>,
}

impl GamePart1 {
    /// Reads the notes; every non-blank line must make a valid bag.
    pub fn new(input_contents: &str) -> (r: GamePart1)
        requires
            all_sacks_ok(input_contents@),
        ensures
            r.rucksacks@.map_values(|s: Rucksack| s.items@) == sack_lines_of(input_contents@),
            forall|j: int| 0 <= j < r.rucksacks@.len() ==> rucksack_wf(#[trigger] r.rucksacks@[j]),
    {
        let cs = chars_of(input_contents);
        let lines = crate::text::lines_vec(&cs);
        let mut rucksacks: Vec<Rucksack> = Vec::new();
        let mut k: usize = 0;
        proof {
            assert(rucksacks@.map_values(|s: Rucksack| s.items@) =~= Seq::<Seq<char>>::empty());
        }
        while k < lines.len()
            invariant
                k <= lines@.len(),
                all_sacks_ok(input_contents@),
                views_of(lines) == lines_of(input_contents@),
                sack_lines_rec(
                    views_of(lines),
                    k as int,
                    rucksacks@.map_values(|s: Rucksack| s.items@),
                ) == sack_lines_of(input_contents@),
                forall|j: int| 0 <= j < rucksacks@.len() ==> rucksack_wf(#[trigger] rucksacks@[j]),
            decreases lines@.len() - k,
        {
            proof {
                assert(views_of(lines)[k as int] == lines@[k as int]@);
            }
            let ghost prev = rucksacks@.map_values(|s: Rucksack| s.items@);
            let t = crate::text::trim_of(&lines[k]);
            if t.len() > 0 {
                let line = crate::text::string_from_chars(&t);
                proof {
                    crate::text::lemma_trim_idempotent(lines@[k as int]@);
                }
                let sack = Rucksack::new(line.as_str());
                rucksacks.push(sack);
                proof {
                    assert(rucksacks@.map_values(|s: Rucksack| s.items@) =~= prev.push(
                        rucksacks@.last().items@,
                    ));
                }
            }
            k = k + 1;
        }
        proof {
            assert(views_of(lines).len() == lines@.len());
        }
        GamePart1 { rucksacks }
    }

    /// Sums the priorities of every bag's repeated item.
    pub fn calculate_repetitive_item_priorities(&self) -> (r: i32)
        requires
            self.rucksacks@.len() <= 10_000_000,
            forall|j: int|
                0 <= j < self.rucksacks@.len() ==> is_letter(
                    #[trigger] self.rucksacks@[j].repetitive_item,
                ),
        ensures
            r == sum_rep_priorities(self.rucksacks@, 0),
    {
        let mut total: i32 = 0;
        let mut k: usize = 0;
        while k < self.rucksacks.len()
            invariant
                k <= self.rucksacks@.len(),
                self.rucksacks@.len() <= 10_000_000,
                forall|j: int|
                    0 <= j < self.rucksacks@.len() ==> is_letter(
                        #[trigger] self.rucksacks@[j].repetitive_item,
                    ),
                0 <= total <= 52 * k,
                total + sum_rep_priorities(self.rucksacks@, k as int) == sum_rep_priorities(
                    self.rucksacks@,
                    0,
                ),
            decreases self.rucksacks@.len() - k,
        {
            proof {
                lemma_sum_rep_bounds(self.rucksacks@, k as int);
            }
            let p = Rucksack::get_item_priority(None, Some(&self.rucksacks[k]));
            total = total + p;
            k = k + 1;
        }
        total
    }
}

/// An item type that every bag of a group holds.
pub open spec fn group_common(g: Seq<Rucksack>, c: char) -> bool {
    forall|j: int| 0 <= j < g.len() ==> #[trigger] g[j].items@.contains(c)
}

/// A group of bags sharing one badge item.
#[derive(Debug)]
pub struct ElfGroup {
    pub elves: Vec<Rucksack>,
}

impl ElfGroup {
    /// The one item type every bag of the group holds.
    pub fn find_badge(&self) -> (r: char)
        requires
            self.elves@.len() > 0,
            exists|c: char| group_common(self.elves@, c),
            forall|c1: char, c2: char|
                group_common(self.elves@, c1) && group_common(self.elves@, c2) ==> c1 == c2,
        ensures
            group_common(self.elves@, r),
    {
        let mut badges = dedup_vec(&self.elves[0].items);
        let mut j: usize = 1;
        proof {
            assert forall|c: char| #[trigger] badges@.contains(c) <==> (
            self.elves@[0].items@.contains(c) && group_common(self.elves@.take(1), c)) by {
                lemma_dedup_members(self.elves@[0].items@, c);
                if self.elves@[0].items@.contains(c) {
                    assert forall|i: int| 0 <= i < 1 implies #[trigger] self.elves@.take(
                        1,
                    )[i].items@.contains(c) by {
                        assert(self.elves@.take(1)[i] == self.elves@[0]);
                    }
                } else {
                    assert(self.elves@.take(1)[0] == self.elves@[0]);
                }
            }
        }
        while j < self.elves.len()
            invariant
                1 <= j <= self.elves@.len(),
                forall|c: char|
                    #[trigger] badges@.contains(c) <==> (self.elves@[0].items@.contains(c)
                        && group_common(self.elves@.take(j as int), c)),
            decreases self.elves@.len() - j,
        {
            let ghost prev = badges@;
            badges = retain_in(&badges, &self.elves[j].items);
            proof {
                assert forall|c: char| #[trigger] badges@.contains(c) <==> (
                self.elves@[0].items@.contains(c) && group_common(
                    self.elves@.take(j + 1 as int),
                    c,
                )) by {
                    lemma_common_members(prev, self.elves@[j as int].items@, c);
                    if self.elves@[0].items@.contains(c) && group_common(
                        self.elves@.take(j + 1 as int),
                        c,
                    ) {
                        assert forall|i: int| 0 <= i < j implies #[trigger] self.elves@.take(
                            j as int,
                        )[i].items@.contains(c) by {
                            assert(self.elves@.take(j + 1 as int)[i].items@.contains(c));
                        }
                        assert(self.elves@.take(j + 1 as int)[j as int].items@.contains(c));
                    }
                    if prev.contains(c) && self.elves@[j as int].items@.contains(c) {
                        assert forall|i: int| 0 <= i < j + 1 implies #[trigger] self.elves@.take(
                            j + 1 as int,
                        )[i].items@.contains(c) by {
                            if i < j {
                                assert(self.elves@.take(j as int)[i].items@.contains(c));
                            }
                        }
                    }
                }
            }
            j = j + 1;
        }
        proof {
            assert(self.elves@.take(self.elves@.len() as int) =~= self.elves@);
            let c = choose|c: char| group_common(self.elves@, c);
            assert(self.elves@[0].items@.contains(c));
            assert(badges@.contains(c));
        }
        let badge = badges[0];
        proof {
            assert(badges@.contains(badges@[0]));
        }
        badge
    }
}

/// The badge of a group: the item type the whole group shares.
pub open spec fn group_badge(g: ElfGroup) -> char {
    choose|c: char| group_common(g.elves@, c)
}

/// The sum of the groups' badge priorities from `k` on.
pub open spec fn sum_badge_priorities(gs: Seq<ElfGroup>, k: int) -> int
    decreases gs.len() - k,
{
    if k < 0 || k >= gs.len() {
        0
    } else {
        priority(group_badge(gs[k])) + sum_badge_priorities(gs, k + 1)
    }
}

/// A group is ready for scoring: it shares exactly one badge, and that
/// badge is a letter.
pub open spec fn group_ok(g: ElfGroup) -> bool {
    &&& g.elves@.len() > 0
    &&& exists|c: char| group_common(g.elves@, c)
    &&& forall|c1: char, c2: char|
        group_common(g.elves@, c1) && group_common(g.elves@, c2) ==> c1 == c2
    &&& is_letter(group_badge(g))
}

proof fn lemma_sum_badge_bounds(gs: Seq<ElfGroup>, k: int)
    requires
        0 <= k <= gs.len(),
        forall|j: int| 0 <= j < gs.len() ==> group_ok(#[trigger] gs[j]),
    ensures
        0 <= sum_badge_priorities(gs, k) <= 52 * (gs.len() - k),
    decreases gs.len() - k,
{
    if k < gs.len() {
        lemma_sum_badge_bounds(gs, k + 1);
    }
}

/// Bags compared field by field, through their views.
pub open spec fn rucksack_like(a: Rucksack, b: Rucksack) -> bool {
    &&& a.items@ == b.items@
    &&& a.compartments.0@ == b.compartments.0@
    &&& a.compartments.1@ == b.compartments.1@
    &&& a.repetitive_item == b.repetitive_item
}

fn copy_rucksack(r: &Rucksack) -> (r2: Rucksack)
    ensures
        rucksack_like(r2, *r),
{
    let items = crate::text::subvec(&r.items, 0, r.items.len());
    let c0 = crate::text::subvec(&r.compartments.0, 0, r.compartments.0.len());
    let c1 = crate::text::subvec(&r.compartments.1, 0, r.compartments.1.len());
    proof {
        assert(items@ =~= r.items@);
        assert(c0@ =~= r.compartments.0@);
        assert(c1@ =~= r.compartments.1@);
    }
    Rucksack { items, compartments: (c0, c1), repetitive_item: r.repetitive_item }
}

/// The second part of the game: the bags taken three at a time, scored by
/// each group's badge.
pub struct GamePart2 {
    pub elf_groups: Vec<ElfGroup>,
}

impl GamePart2 {
    /// Cuts the bags into groups of three, in order.
    pub fn new(rucksacks: Vec<Rucksack>) -> (r: GamePart2)
        requires
            rucksacks@.len() % 3 == 0,
        ensures
            r.elf_groups@.len() * 3 == rucksacks@.len(),
            forall|g: int|
                0 <= g < r.elf_groups@.len() ==> (#[trigger] r.elf_groups@[g]).elves@.len() == 3,
            forall|g: int, j: int|
                0 <= g < r.elf_groups@.len() && 0 <= j < 3 ==> rucksack_like(
                    #[trigger] r.elf_groups@[g].elves@[j],
                    rucksacks@[3 * g + j],
                ),
    {
        let mut elf_groups: Vec<ElfGroup> = Vec::new();
        let mut i: usize = 0;
        while i < rucksacks.len()
            invariant
                i <= rucksacks@.len(),
                i % 3 == 0,
                rucksacks@.len() % 3 == 0,
                elf_groups@.len() * 3 == i,
                forall|g: int|
                    0 <= g < elf_groups@.len() ==> (#[trigger] elf_groups@[g]).elves@.len() == 3,
                forall|g: int, j: int|
                    0 <= g < elf_groups@.len() && 0 <= j < 3 ==> rucksack_like(
                        #[trigger] elf_groups@[g].elves@[j],
                        rucksacks@[3 * g + j],
                    ),
            decreases rucksacks@.len() - i,
        {
            let mut group: Vec<Rucksack> = Vec::new();
            group.push(copy_rucksack(&rucksacks[i]));
            group.push(copy_rucksack(&rucksacks[i + 1]));
            group.push(copy_rucksack(&rucksacks[i + 2]));
            elf_groups.push(ElfGroup { elves: group });
            i = i + 3;
        }
        GamePart2 { elf_groups }
    }

    /// Sums the priorities of every group's badge.
    pub fn calculate_group_badges_priorities(&self) -> (r: i32)
        requires
            self.elf_groups@.len() <= 10_000_000,
            forall|g: int| 0 <= g < self.elf_groups@.len() ==> group_ok(#[trigger] self.elf_groups@[g]),
        ensures
            r == sum_badge_priorities(self.elf_groups@, 0),
    {
        let mut total: i32 = 0;
        let mut k: usize = 0;
        while k < self.elf_groups.len()
            invariant
                k <= self.elf_groups@.len(),
                self.elf_groups@.len() <= 10_000_000,
                forall|g: int|
                    0 <= g < self.elf_groups@.len() ==> group_ok(#[trigger] self.elf_groups@[g]),
                0 <= total <= 52 * k,
                total + sum_badge_priorities(self.elf_groups@, k as int) == sum_badge_priorities(
                    self.elf_groups@,
                    0,
                ),
            decreases self.elf_groups@.len() - k,
        {
            proof {
                lemma_sum_badge_bounds(self.elf_groups@, k as int);
            }
            let badge = self.elf_groups[k].find_badge();
            proof {
                assert(badge == group_badge(self.elf_groups@[k as int]));
            }
            let p = Rucksack::get_item_priority(Some(badge), None);
            total = total + p;
            k = k + 1;
        }
        total
    }
}

} // verus!
