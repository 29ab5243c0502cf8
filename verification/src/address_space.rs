//! The address space: a flat, sparse, memory-mapped store from full word
//! addresses to word values.  Reading an address never written returns the
//! zero word; a write fully replaces any prior value.  There are no bounds,
//! alignment or protection checks by design.

use crate::store::{assoc_find, lemma_assoc_find_push, lemma_assoc_find_wf, store_get, store_wf};
use crate::trit::{bt_digits, field_value, lemma_bt_digits_unique, TritField, Tryte};
use vstd::prelude::*;

verus! {

/// A memory address: a full machine word.
pub type Address = TritField;

/// The sparse memory-mapped store.
pub struct AddressSpace {
    pub mmio: Vec<(i128, TritField)>,
}

impl AddressSpace {
    /// Every stored value is a full 27-trit word.
    pub open spec fn wf(&self) -> bool {
        store_wf(self.mmio@)
    }

    /// The value the word at address `a` reads as: the newest written
    /// value, or zero if the address was never written.
    pub open spec fn mem(&self, a: int) -> int {
        match assoc_find(self.mmio@, a) {
            Some(w) => field_value(w@),
            None => 0,
        }
    }

    /// Reads the word at an address; an unmapped address reads as the zero
    /// word.
    pub fn read(&self, address: &Address) -> (r: Tryte)
        requires
            self.wf(),
            address@.len() == 27,
        ensures
            r@.len() == 27,
            field_value(r@) == self.mem(field_value(address@)),
            r@ == bt_digits(self.mem(field_value(address@)), 27),
    {
        let key = address.to_i128();
        let r = match store_get(&self.mmio, key) {
            Some(w) => {
                proof {
                    lemma_assoc_find_wf(self.mmio@, key as int);
                }
                w.clone()
            },
            None => TritField::zeros(27),
        };
        proof {
            lemma_bt_digits_unique(r@);
        }
        r
    }

    /// Writes a word to an address, fully replacing any prior value there
    /// and leaving every other address untouched.
    pub fn write(&mut self, address: &Address, value: Tryte)
        requires
            old(self).wf(),
            address@.len() == 27,
            value@.len() == 27,
        ensures
            final(self).wf(),
            forall|x: int|
                final(self).mem(x) == if x == field_value(address@) {
                    field_value(value@)
                } else {
                    old(self).mem(x)
                },
    {
        let key = address.to_i128();
        let ghost mmio0 = self.mmio@;
        self.mmio.push((key, value));
        proof {
            assert forall|x: int|
                self.mem(x) == if x == field_value(address@) {
                    field_value(value@)
                } else {
                    old(self).mem(x)
                } by {
                lemma_assoc_find_push(mmio0, key, value, x);
            }
        }
    }
}

impl Default for AddressSpace {
    fn default() -> (r: Self)
        ensures
            r.wf(),
            forall|x: int| r.mem(x) == 0,
    {
        AddressSpace { mmio: Vec::new() }
    }
}

} // verus!
