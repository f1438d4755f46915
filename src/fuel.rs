//! The two fuel formulas, for a single mass.

use vstd::prelude::*;

verus! {

/// Integer division that rounds toward zero, as Rust's `/` does, for a
/// positive divisor.
pub open spec fn trunc_div(a: int, d: int) -> int
    recommends
        d > 0,
{
    if a >= 0 {
        a / d
    } else {
        -((-a) / d)
    }
}

/// Fuel needed to lift a mass: a third of the mass, rounded toward zero,
/// minus two.
pub open spec fn fuel_direct(mass: int) -> int {
    trunc_div(mass, 3) - 2
}

/// Fuel needed to lift a mass together with the fuel itself: each amount
/// of fuel needs fuel of its own, until that amount is no longer positive.
pub open spec fn fuel_total(mass: int) -> int
    decreases mass,
{
    let r = fuel_direct(mass);
    if r > 0 {
        r + fuel_total(r)
    } else {
        0
    }
}

/// The fuel for a mass, by the direct formula.
pub fn fuel_req(mass: i32) -> (r: i32)
    ensures
        r as int == fuel_direct(mass as int),
{
    mass / 3 - 2
}

/// The total fuel for a mass is never negative, and never more than the
/// mass itself when the mass is not negative.
proof fn lemma_fuel_total_bounds(mass: int)
    ensures
        0 <= fuel_total(mass),
        fuel_total(mass) <= if mass > 0 { mass } else { 0 },
    decreases mass,
{
    let r = fuel_direct(mass);
    if r > 0 {
        lemma_fuel_total_bounds(r);
    }
}

/// For every mass that is not negative, the fuel counted with the fuel's
/// own fuel is not negative.
pub proof fn lemma_fuel_total_nonnegative(mass: int)
    requires
        0 <= mass,
    ensures
        fuel_total(mass) >= 0,
{
    lemma_fuel_total_bounds(mass);
}

/// The fuel for a mass, counting the fuel that the fuel itself needs.
pub fn fuel_fuel(mass: i32) -> (r: i32)
    ensures
        r as int == fuel_total(mass as int),
        r >= 0,
{
    proof {
        lemma_fuel_total_bounds(mass as int);
    }
    let mut total: i32 = 0;
    let mut step: i32 = fuel_req(mass);
    while step > 0
        invariant
            0 <= total,
            fuel_total(mass as int) <= i32::MAX,
            total + (if step > 0 { step + fuel_total(step as int) } else { 0 }) == fuel_total(
                mass as int,
            ),
        decreases step + 2,
    {
        proof {
            lemma_fuel_total_bounds(step as int);
        }
        total = total + step;
        step = fuel_req(step);
    }
    total
}

} // verus!
