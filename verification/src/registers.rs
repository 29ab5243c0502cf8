//! The register file: a dedicated program-counter word plus a sparse store
//! of words addressed by a 3-trit register index.  Register index zero is
//! hardwired: it always reads as the zero word and silently ignores writes.

use crate::store::{assoc_find, lemma_assoc_find_push, lemma_assoc_find_wf, store_get, store_wf};
use crate::trit::{bt_digits, field_value, lemma_bt_digits_unique, TritField, Tryte};
use vstd::prelude::*;

verus! {

/// A register index: a 3-trit field, selecting among up to 27 registers.
pub type RegAddr = TritField;

/// Program counter plus the sparse general-purpose register store.
pub struct Registers {
    pub pc: Tryte,
    pub gpr: Vec<(i128, TritField)>,
}

impl Registers {
    /// The program counter is a full word and every stored value is one.
    pub open spec fn wf(&self) -> bool {
        &&& self.pc@.len() == 27
        &&& store_wf(self.gpr@)
    }

    /// The integer the program counter stands for.
    pub open spec fn pc_val(&self) -> int {
        field_value(self.pc@)
    }

    /// The value register `i` reads as: zero for register 0 always, the
    /// newest written value otherwise, zero if never written.
    pub open spec fn reg(&self, i: int) -> int {
        if i == 0 {
            0
        } else {
            match assoc_find(self.gpr@, i) {
                Some(w) => field_value(w@),
                None => 0,
            }
        }
    }

    /// Reads the program counter word.
    pub fn read_pc(&self) -> (r: &Tryte)
        ensures
            r@ == self.pc@,
    {
        &self.pc
    }

    /// Replaces the program counter word.
    pub fn write_pc(&mut self, new_pc: &Tryte)
        requires
            old(self).wf(),
            new_pc@.len() == 27,
        ensures
            final(self).wf(),
            final(self).pc@ == new_pc@,
            final(self).gpr@ == old(self).gpr@,
    {
        self.pc = new_pc.clone();
    }

    /// Reads a general-purpose register: the zero word for index 0 or for
    /// an index never written, the newest written word otherwise.
    pub fn read_gpr(&self, index: &RegAddr) -> (r: Tryte)
        requires
            self.wf(),
            index@.len() == 3,
        ensures
            r@.len() == 27,
            field_value(r@) == self.reg(field_value(index@)),
            r@ == bt_digits(self.reg(field_value(index@)), 27),
    {
        let key = index.to_i128();
        let r = if key == 0 {
            TritField::zeros(27)
        } else {
            match store_get(&self.gpr, key) {
                Some(w) => {
                    proof {
                        lemma_assoc_find_wf(self.gpr@, key as int);
                    }
                    w.clone()
                },
                None => TritField::zeros(27),
            }
        };
        proof {
            lemma_bt_digits_unique(r@);
        }
        r
    }

    /// Writes a general-purpose register.  A write to index 0 is accepted
    /// and silently discarded; every other register is fully overwritten.
    pub fn write_gpr(&mut self, index: &RegAddr, value: Tryte)
        requires
            old(self).wf(),
            index@.len() == 3,
            value@.len() == 27,
        ensures
            final(self).wf(),
            final(self).pc@ == old(self).pc@,
            forall|x: int|
                final(self).reg(x) == if x == field_value(index@) && x != 0 {
                    field_value(value@)
                } else {
                    old(self).reg(x)
                },
    {
        let key = index.to_i128();
        if key == 0 {
        } else {
            let ghost gpr0 = self.gpr@;
            self.gpr.push((key, value));
            proof {
                assert forall|x: int|
                    self.reg(x) == if x == field_value(index@) && x != 0 {
                        field_value(value@)
                    } else {
                        old(self).reg(x)
                    } by {
                    lemma_assoc_find_push(gpr0, key, value, x);
                }
            }
        }
    }
}

/// Register zero invariance: in every register file state, register 0
/// reads as the zero value; since `write_gpr` keeps every state well
/// formed, writing any value to register 0 and reading it back still
/// yields zero, for the lifetime of the file.
pub proof fn lemma_register_zero(r: &Registers)
    ensures
        r.reg(0) == 0,
{
}

impl Default for Registers {
    fn default() -> (r: Self)
        ensures
            r.wf(),
            r.pc@ == bt_digits(0, 27),
            r.pc_val() == 0,
            forall|x: int| r.reg(x) == 0,
    {
        Registers { pc: TritField::zeros(27), gpr: Vec::new() }
    }
}

} // verus!
