//! Stateless ternary logic circuit primitives built on `Trit` alone.

use crate::trit::{trit_int, Trit};
use vstd::prelude::*;

verus! {

/// The circuit block: a stateless bundle of ternary gates.
pub struct ErisCircuit {}

impl ErisCircuit {
    /// Full adder over balanced-ternary digits: returns (sum, carry out).
    ///
    /// The contract `sum + 3 * carry == a + b + carry_in` pins the whole
    /// seven-row addition table: for each raw sum in -3..=3 there is exactly
    /// one (sum digit, carry) pair of digits satisfying it.
    pub fn full_trit_adder(&self, input_a: Trit, input_b: Trit, carry_in: Trit) -> (r: (
        Trit,
        Trit,
    ))
        ensures
            trit_int(r.0) + 3 * trit_int(r.1) == trit_int(input_a) + trit_int(input_b) + trit_int(
                carry_in,
            ),
    {
        let a = input_a.to_i8();
        let b = input_b.to_i8();
        let c = carry_in.to_i8();

        let sum_raw = a + b + c;

        let (s, c_out): (i8, i8) = match sum_raw {
            3 => (0, 1),
            2 => (-1, 1),
            1 => (1, 0),
            0 => (0, 0),
            -1 => (-1, 0),
            -2 => (1, -1),
            -3 => (0, -1),
            _ => {
                proof {
                    assert(false);
                }
                (0, 0)
            },
        };

        (Trit::from_i8(s), Trit::from_i8(c_out))
    }

    /// Minimum of two trits under Negative < Zero < Positive: the ternary
    /// (Kleene-style) conjunction.  The result is the lesser operand.
    pub fn min(&self, input_a: Trit, input_b: Trit) -> (r: Trit)
        ensures
            trit_int(r) == if trit_int(input_a) <= trit_int(input_b) {
                trit_int(input_a)
            } else {
                trit_int(input_b)
            },
    {
        match (input_a, input_b) {
            (Trit::Negative, _) | (_, Trit::Negative) => Trit::Negative,
            (Trit::Zero, _) | (_, Trit::Zero) => Trit::Zero,
            (Trit::Positive, Trit::Positive) => Trit::Positive,
        }
    }
}

} // verus!
