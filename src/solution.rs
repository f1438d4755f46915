//! Totals over a list of masses, and the two answers for a text.

use vstd::prelude::*;
use crate::fuel::{fuel_direct, fuel_total, fuel_req, fuel_fuel};
use crate::parse::{all_masses, is_space, lemma_trailing_space, masses_of, tokens, parse};

verus! {

/// The sum of the direct fuel of each mass.
pub open spec fn direct_sum(ms: Seq<i32>) -> int
    decreases ms.len(),
{
    if ms.len() == 0 {
        0
    } else {
        direct_sum(ms.drop_last()) + fuel_direct(ms.last() as int)
    }
}

/// The sum of the total fuel of each mass, fuel for the fuel included.
pub open spec fn total_sum(ms: Seq<i32>) -> int
    decreases ms.len(),
{
    if ms.len() == 0 {
        0
    } else {
        total_sum(ms.drop_last()) + fuel_total(ms.last() as int)
    }
}

pub open spec fn fits_i32(x: int) -> bool {
    i32::MIN <= x <= i32::MAX
}

/// Each running total of the direct sum, taken from the front, fits in an `i32`.
pub open spec fn direct_sums_fit(ms: Seq<i32>) -> bool {
    forall|k: int| 0 <= k <= ms.len() ==> fits_i32(#[trigger] direct_sum(ms.subrange(0, k)))
}

/// Each running total of the total sum, taken from the front, fits in an `i32`.
pub open spec fn total_sums_fit(ms: Seq<i32>) -> bool {
    forall|k: int| 0 <= k <= ms.len() ==> fits_i32(#[trigger] total_sum(ms.subrange(0, k)))
}

/// The masses of a text, where every token of it writes one.
pub open spec fn text_masses(text: Seq<char>) -> Seq<i32> {
    masses_of(tokens(text))
}

/// A whitespace character added at the end of a text changes neither
/// whether it reads as masses nor either of its sums.
pub proof fn lemma_trailing_space_same_sums(text: Seq<char>, c: char)
    requires
        is_space(c),
    ensures
        all_masses(tokens(text.push(c))) == all_masses(tokens(text)),
        direct_sum(text_masses(text.push(c))) == direct_sum(text_masses(text)),
        total_sum(text_masses(text.push(c))) == total_sum(text_masses(text)),
{
    lemma_trailing_space(text, c);
}

/// Sums the direct fuel of the masses; `None` where a running total leaves
/// the `i32` range.
pub fn sum_fuel_direct(masses: &Vec<i32>) -> (r: Option<i32>)
    ensures
        r is Some <==> direct_sums_fit(masses@),
        r matches Some(t) ==> t == direct_sum(masses@),
{
    let ghost ms = masses@;
    let mut total: i32 = 0;
    assert(ms.subrange(0, 0) =~= seq![]);
    for i in 0..masses.len()
        invariant
            ms == masses@,
            total == direct_sum(ms.subrange(0, i as int)),
            forall|k: int| 0 <= k <= i ==> fits_i32(#[trigger] direct_sum(ms.subrange(0, k))),
    {
        assert(ms.subrange(0, i + 1).drop_last() =~= ms.subrange(0, i as int));
        match total.checked_add(fuel_req(masses[i])) {
            Some(t) => total = t,
            None => {
                assert(!fits_i32(direct_sum(ms.subrange(0, i + 1))));
                return None;
            },
        }
    }
    assert(ms.subrange(0, ms.len() as int) =~= ms);
    Some(total)
}

/// Sums the total fuel of the masses; `None` where a running total leaves
/// the `i32` range.
pub fn sum_fuel_recursive(masses: &Vec<i32>) -> (r: Option<i32>)
    ensures
        r is Some <==> total_sums_fit(masses@),
        r matches Some(t) ==> t == total_sum(masses@),
{
    let ghost ms = masses@;
    let mut total: i32 = 0;
    assert(ms.subrange(0, 0) =~= seq![]);
    for i in 0..masses.len()
        invariant
            ms == masses@,
            total == total_sum(ms.subrange(0, i as int)),
            forall|k: int| 0 <= k <= i ==> fits_i32(#[trigger] total_sum(ms.subrange(0, k))),
    {
        assert(ms.subrange(0, i + 1).drop_last() =~= ms.subrange(0, i as int));
        match total.checked_add(fuel_fuel(masses[i])) {
            Some(t) => total = t,
            None => {
                assert(!fits_i32(total_sum(ms.subrange(0, i + 1))));
                return None;
            },
        }
    }
    assert(ms.subrange(0, ms.len() as int) =~= ms);
    Some(total)
}

/// The sum of the direct fuel of the masses that a text lists.
pub fn get_solution(input: &String) -> (r: i32)
    requires
        all_masses(tokens(input@)),
        direct_sums_fit(text_masses(input@)),
    ensures
        r == direct_sum(text_masses(input@)),
{
    match parse(input.clone()) {
        Ok(masses) => match sum_fuel_direct(&masses) {
            Some(total) => total,
            None => unreached(),
        },
        Err(_) => unreached(),
    }
}

/// The sum of the total fuel, fuel for the fuel included, of the masses
/// that a text lists.
pub fn get_solution2(input: &String) -> (r: i32)
    requires
        all_masses(tokens(input@)),
        total_sums_fit(text_masses(input@)),
    ensures
        r == total_sum(text_masses(input@)),
{
    match parse(input.clone()) {
        Ok(masses) => match sum_fuel_recursive(&masses) {
            Some(total) => total,
            None => unreached(),
        },
        Err(_) => unreached(),
    }
}

} // verus!
