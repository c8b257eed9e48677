//! The calorie-count puzzle: lines of numbers separated by blank lines,
//! one group per elf; each group is summed, and a trailing group counts
//! only when its sum is positive.

use vstd::prelude::*;

use crate::text::chars_of;
use crate::text::int_str_val;
use crate::text::is_int_str;
use crate::text::lines_of;
use crate::text::spec_trim;
use crate::text::views_of;

verus! {

/// The per-elf sums, folded line by line: a blank line closes the current
/// group, a number line adds to it, and anything else (or a sum that does
/// not fit the answer type) fails the whole list. A last group is kept
/// only when its sum is positive.
pub open spec fn cal_rec(ls: Seq<Seq<char>>, k: int, cur: int, acc: Seq<int>) -> Option<Seq<int>>
    decreases ls.len() - k,
{
    if k < 0 || k >= ls.len() {
        Some(
            if cur > 0 {
                acc.push(cur)
            } else {
                acc
            },
        )
    } else {
        let t = spec_trim(ls[k]);
        if t.len() == 0 {
            cal_rec(ls, k + 1, 0, acc.push(cur))
        } else if is_int_str(t) && i32::MIN <= int_str_val(t) <= i32::MAX && i32::MIN <= cur
            + int_str_val(t) <= i32::MAX {
            cal_rec(ls, k + 1, cur + int_str_val(t), acc)
        } else {
            None
        }
    }
}

pub open spec fn calories_of(text: Seq<char>) -> Option<Seq<int>> {
    cal_rec(lines_of(text), 0, 0, Seq::empty())
}

/// Sums each elf's group of lines; the notes must hold only number lines
/// and blank lines, with every running sum fitting the answer type.
pub fn extract_calories_per_elf(calories_notes: &str) -> (r: Vec<i32>)
    requires
        calories_of(calories_notes@) is Some,
    ensures
        r@.map_values(|x: i32| x as int) == calories_of(calories_notes@).unwrap(),
{
    let cs = chars_of(calories_notes);
    let lines = crate::text::lines_vec(&cs);
    let mut elf_calories: Vec<i32> = Vec::new();
    let mut elf_calorie: i32 = 0;
    let mut k: usize = 0;
    proof {
        assert(elf_calories@.map_values(|x: i32| x as int) =~= Seq::<int>::empty());
    }
    while k < lines.len()
        invariant
            k <= lines@.len(),
            calories_of(calories_notes@) is Some,
            cal_rec(
                views_of(lines),
                k as int,
                elf_calorie as int,
                elf_calories@.map_values(|x: i32| x as int),
            ) == calories_of(calories_notes@),
        decreases lines@.len() - k,
    {
        proof {
            assert(views_of(lines)[k as int] == lines@[k as int]@);
        }
        let ghost prev = elf_calories@.map_values(|x: i32| x as int);
        let t = crate::text::trim_of(&lines[k]);
        if t.len() == 0 {
            elf_calories.push(elf_calorie);
            elf_calorie = 0;
            proof {
                assert(elf_calories@.map_values(|x: i32| x as int) =~= prev.push(
                    elf_calories@.last() as int,
                ));
            }
        } else {
            let v = crate::text::parse_i32(&t).unwrap();
            elf_calorie = elf_calorie + v;
        }
        k = k + 1;
    }
    proof {
        assert(views_of(lines).len() == lines@.len());
    }
    let ghost prev = elf_calories@.map_values(|x: i32| x as int);
    if elf_calorie > 0 {
        elf_calories.push(elf_calorie);
        proof {
            assert(elf_calories@.map_values(|x: i32| x as int) =~= prev.push(
                elf_calories@.last() as int,
            ));
        }
    }
    elf_calories
}

} // verus!
