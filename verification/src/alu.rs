//! The word-wide arithmetic unit: add, subtract and pass-through over
//! 27-trit words, computed trit-serially by chaining the full-adder circuit
//! across every digit position, least significant first.

use crate::circuits::ErisCircuit;
use crate::instructions::AluOp;
use crate::trit::{
    bt_digits, field_value, lemma_bt_digits_shift, lemma_bt_digits_unique,
    lemma_field_value_bound, lemma_field_value_snoc, lemma_pow3_unfold, lemma_pow3_widths,
    lemma_zero_value, pow3, trit_int, Trit, TritField, Tryte,
};
use vstd::arithmetic::power::lemma_pow0;
use vstd::prelude::*;

verus! {

/// The ternary zero flag: Positive when a result is exactly zero, Zero
/// otherwise.  The flag reuses the `Trit` type rather than a boolean.
pub open spec fn spec_zero_flag(v: int) -> Trit {
    if v == 0 {
        Trit::Positive
    } else {
        Trit::Zero
    }
}

/// Holds two input words and a selected operation; `alu_set` then
/// `alu_exec` then read `result` and `zero_flag`.  State persists until
/// `alu_reset` or the next `alu_set`.
pub struct ArithmeticLogicUnit {
    pub circuit: ErisCircuit,
    pub result: Tryte,
    pub zero_flag: Trit,
    pub input_a: Tryte,
    pub input_b: Tryte,
    pub alu_ctrl: AluOp,
}

/// The digit string `alu_exec` leaves in `result`: the wrapped sum or
/// difference of the input words, the second input copied for pass-through,
/// or the previous result when no operation is selected.
pub open spec fn spec_exec_result(s: ArithmeticLogicUnit) -> Seq<Trit> {
    match s.alu_ctrl {
        AluOp::Add => bt_digits(field_value(s.input_a@) + field_value(s.input_b@), 27),
        AluOp::Sub => bt_digits(field_value(s.input_a@) - field_value(s.input_b@), 27),
        AluOp::PassB => s.input_b@,
        AluOp::NoOp => s.result@,
    }
}

/// The zero flag `alu_exec` leaves: set from the result for the two
/// arithmetic operations, untouched otherwise.
pub open spec fn spec_exec_zero(s: ArithmeticLogicUnit) -> Trit {
    match s.alu_ctrl {
        AluOp::Add | AluOp::Sub => spec_zero_flag(field_value(spec_exec_result(s))),
        _ => s.zero_flag,
    }
}

impl ArithmeticLogicUnit {
    /// All three word-sized parts hold exactly 27 trits.
    pub open spec fn wf(&self) -> bool {
        &&& self.result@.len() == 27
        &&& self.input_a@.len() == 27
        &&& self.input_b@.len() == 27
    }

    /// Loads the two operand words and the operation selector.
    pub fn alu_set(&mut self, input_a: Tryte, input_b: Tryte, alu_ctrl: AluOp)
        requires
            old(self).wf(),
            input_a@.len() == 27,
            input_b@.len() == 27,
        ensures
            final(self).wf(),
            final(self).input_a@ == input_a@,
            final(self).input_b@ == input_b@,
            final(self).alu_ctrl == alu_ctrl,
            final(self).result@ == old(self).result@,
            final(self).zero_flag == old(self).zero_flag,
    {
        self.input_a = input_a;
        self.input_b = input_b;
        self.alu_ctrl = alu_ctrl;
    }

    /// Runs the selected operation over the loaded inputs.
    pub fn alu_exec(&mut self)
        requires
            old(self).wf(),
        ensures
            final(self).wf(),
            final(self).input_a@ == old(self).input_a@,
            final(self).input_b@ == old(self).input_b@,
            final(self).alu_ctrl == old(self).alu_ctrl,
            final(self).result@ == spec_exec_result(*old(self)),
            final(self).zero_flag == spec_exec_zero(*old(self)),
    {
        match self.alu_ctrl {
            AluOp::Add => self.add(),
            AluOp::Sub => self.sub(),
            AluOp::PassB => {
                self.result = self.input_b.clone();
            },
            AluOp::NoOp => {},
        }
    }

    /// Clears the inputs, the result, the flag and the selector back to the
    /// zero word, the Zero trit and no operation.
    pub fn alu_reset(&mut self)
        ensures
            final(self).wf(),
            final(self).result@ == bt_digits(0, 27),
            final(self).zero_flag == Trit::Zero,
            final(self).input_a@ == bt_digits(0, 27),
            final(self).input_b@ == bt_digits(0, 27),
            final(self).alu_ctrl == AluOp::NoOp,
    {
        self.result = TritField::zeros(27);
        self.zero_flag = Trit::Zero;
        self.input_a = TritField::zeros(27);
        self.input_b = TritField::zeros(27);
        self.alu_ctrl = AluOp::NoOp;
    }

    /// Adds the input words: a trit-serial ripple across all 27 positions,
    /// carrying a running carry trit.  The final carry out is discarded, so
    /// the result is the sum wrapped into the representable range.
    pub fn add(&mut self)
        requires
            old(self).wf(),
        ensures
            final(self).wf(),
            final(self).input_a@ == old(self).input_a@,
            final(self).input_b@ == old(self).input_b@,
            final(self).alu_ctrl == old(self).alu_ctrl,
            final(self).result@ == bt_digits(
                field_value(old(self).input_a@) + field_value(old(self).input_b@),
                27,
            ),
            final(self).zero_flag == spec_zero_flag(field_value(final(self).result@)),
    {
        let mut carry = Trit::Zero;
        let mut is_zero_result = true;
        let mut out: Vec<Trit> = Vec::new();
        let mut i: usize = 0;
        proof {
            lemma_pow0(3);
            assert(self.input_a@.subrange(0, 0) =~= Seq::<Trit>::empty());
            assert(self.input_b@.subrange(0, 0) =~= Seq::<Trit>::empty());
        }
        while i < 27
            invariant
                i <= 27,
                self.wf(),
                out@.len() == i as nat,
                field_value(out@) + pow3(i as nat) * trit_int(carry) == field_value(
                    self.input_a@.subrange(0, i as int),
                ) + field_value(self.input_b@.subrange(0, i as int)),
                is_zero_result <==> (forall|j: int| 0 <= j < i ==> out@[j] == Trit::Zero),
            decreases 27 - i,
        {
            let a = self.input_a.0[i];
            let b = self.input_b.0[i];

            let (sum, new_carry) = self.circuit.full_trit_adder(a, b, carry);

            proof {
                let p = pow3(i as nat);
                lemma_pow3_unfold((i + 1) as nat);
                lemma_field_value_snoc(out@, sum);
                lemma_field_value_snoc(self.input_a@.subrange(0, i as int), a);
                lemma_field_value_snoc(self.input_b@.subrange(0, i as int), b);
                assert(self.input_a@.subrange(0, i + 1) =~= self.input_a@.subrange(
                    0,
                    i as int,
                ).push(a));
                assert(self.input_b@.subrange(0, i + 1) =~= self.input_b@.subrange(
                    0,
                    i as int,
                ).push(b));
                assert(p * trit_int(sum) + (3 * p) * trit_int(new_carry) == p * trit_int(a) + p
                    * trit_int(b) + p * trit_int(carry)) by (nonlinear_arith)
                    requires
                        trit_int(sum) + 3 * trit_int(new_carry) == trit_int(a) + trit_int(b)
                            + trit_int(carry),
                ;
            }

            let ghost out0 = out@;
            let ghost iz0 = is_zero_result;

            if sum != Trit::Zero {
                is_zero_result = false;
            }

            out.push(sum);
            proof {
                assert(out@ =~= out0.push(sum));
                assert(out@[i as int] == sum);
                assert(forall|j: int| 0 <= j < i ==> out@[j] == out0[j]);
                if !iz0 {
                    assert(exists|j: int| 0 <= j < i && out0[j] != Trit::Zero);
                    let j0 = choose|j: int| 0 <= j < i && out0[j] != Trit::Zero;
                    assert(out@[j0] != Trit::Zero);
                }
            }
            carry = new_carry;
            i += 1;
        }
        proof {
            assert(self.input_a@.subrange(0, 27) =~= self.input_a@);
            assert(self.input_b@.subrange(0, 27) =~= self.input_b@);
            lemma_field_value_bound(out@);
            lemma_pow3_widths();
            lemma_bt_digits_shift(field_value(out@), trit_int(carry), 27nat);
            lemma_bt_digits_unique(out@);
            lemma_zero_value(out@);
        }
        self.result = TritField(out);
        self.zero_flag = if is_zero_result {
            Trit::Positive
        } else {
            Trit::Zero
        };
    }

    /// Subtracts the second input word from the first: every digit of the
    /// second operand is negated (Positive and Negative swap, Zero stays)
    /// and the same ripple as `add` runs; there is no separate borrow chain.
    pub fn sub(&mut self)
        requires
            old(self).wf(),
        ensures
            final(self).wf(),
            final(self).input_a@ == old(self).input_a@,
            final(self).input_b@ == old(self).input_b@,
            final(self).alu_ctrl == old(self).alu_ctrl,
            final(self).result@ == bt_digits(
                field_value(old(self).input_a@) - field_value(old(self).input_b@),
                27,
            ),
            final(self).zero_flag == spec_zero_flag(field_value(final(self).result@)),
    {
        let mut carry = Trit::Zero;
        let mut is_zero_result = true;
        let mut out: Vec<Trit> = Vec::new();
        let mut i: usize = 0;
        proof {
            lemma_pow0(3);
            assert(self.input_a@.subrange(0, 0) =~= Seq::<Trit>::empty());
            assert(self.input_b@.subrange(0, 0) =~= Seq::<Trit>::empty());
        }
        while i < 27
            invariant
                i <= 27,
                self.wf(),
                out@.len() == i as nat,
                field_value(out@) + pow3(i as nat) * trit_int(carry) == field_value(
                    self.input_a@.subrange(0, i as int),
                ) - field_value(self.input_b@.subrange(0, i as int)),
                is_zero_result <==> (forall|j: int| 0 <= j < i ==> out@[j] == Trit::Zero),
            decreases 27 - i,
        {
            let a = self.input_a.0[i];
            let b = self.input_b.0[i];

            let b_negated = match b {
                Trit::Positive => Trit::Negative,
                Trit::Zero => Trit::Zero,
                Trit::Negative => Trit::Positive,
            };

            let (sum, new_carry) = self.circuit.full_trit_adder(a, b_negated, carry);

            proof {
                let p = pow3(i as nat);
                lemma_pow3_unfold((i + 1) as nat);
                lemma_field_value_snoc(out@, sum);
                lemma_field_value_snoc(self.input_a@.subrange(0, i as int), a);
                lemma_field_value_snoc(self.input_b@.subrange(0, i as int), b);
                assert(self.input_a@.subrange(0, i + 1) =~= self.input_a@.subrange(
                    0,
                    i as int,
                ).push(a));
                assert(self.input_b@.subrange(0, i + 1) =~= self.input_b@.subrange(
                    0,
                    i as int,
                ).push(b));
                assert(p * trit_int(sum) + (3 * p) * trit_int(new_carry) == p * trit_int(a) - p
                    * trit_int(b) + p * trit_int(carry)) by (nonlinear_arith)
                    requires
                        trit_int(sum) + 3 * trit_int(new_carry) == trit_int(a) - trit_int(b)
                            + trit_int(carry),
                ;
            }

            let ghost out0 = out@;
            let ghost iz0 = is_zero_result;

            if sum != Trit::Zero {
                is_zero_result = false;
            }

            out.push(sum);
            proof {
                assert(out@ =~= out0.push(sum));
                assert(out@[i as int] == sum);
                assert(forall|j: int| 0 <= j < i ==> out@[j] == out0[j]);
                if !iz0 {
                    assert(exists|j: int| 0 <= j < i && out0[j] != Trit::Zero);
                    let j0 = choose|j: int| 0 <= j < i && out0[j] != Trit::Zero;
                    assert(out@[j0] != Trit::Zero);
                }
            }
            carry = new_carry;
            i += 1;
        }
        proof {
            assert(self.input_a@.subrange(0, 27) =~= self.input_a@);
            assert(self.input_b@.subrange(0, 27) =~= self.input_b@);
            lemma_field_value_bound(out@);
            lemma_pow3_widths();
            lemma_bt_digits_shift(field_value(out@), trit_int(carry), 27nat);
            lemma_bt_digits_unique(out@);
            lemma_zero_value(out@);
        }
        self.result = TritField(out);
        self.zero_flag = if is_zero_result {
            Trit::Positive
        } else {
            Trit::Zero
        };
    }
}

impl Default for ArithmeticLogicUnit {
    fn default() -> (r: Self)
        ensures
            r.wf(),
            r.result@ == bt_digits(0, 27),
            r.zero_flag == Trit::Zero,
            r.input_a@ == bt_digits(0, 27),
            r.input_b@ == bt_digits(0, 27),
            r.alu_ctrl == AluOp::NoOp,
    {
        ArithmeticLogicUnit {
            circuit: ErisCircuit {},
            result: TritField::zeros(27),
            zero_flag: Trit::Zero,
            input_a: TritField::zeros(27),
            input_b: TritField::zeros(27),
            alu_ctrl: AluOp::NoOp,
        }
    }
}

} // verus!
