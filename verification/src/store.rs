//! Sparse word stores: an association list from integer keys to words,
//! where the newest entry for a key wins and an absent key reads as absent.
//! Both the register file and the address space sit on this.

use crate::trit::TritField;
use vstd::prelude::*;

verus! {

/// The word the newest entry for `k` holds, if any entry for `k` exists.
pub open spec fn assoc_find(s: Seq<(i128, TritField)>, k: int) -> Option<TritField>
    decreases s.len(),
{
    if s.len() == 0 {
        None
    } else if s.last().0 as int == k {
        Some(s.last().1)
    } else {
        assoc_find(s.drop_last(), k)
    }
}

/// Every word held in the store is a full 27-trit word.
pub open spec fn store_wf(s: Seq<(i128, TritField)>) -> bool {
    forall|i: int| 0 <= i < s.len() ==> s[i].1@.len() == 27
}

/// Appending an entry overrides that key and leaves every other key alone.
pub proof fn lemma_assoc_find_push(s: Seq<(i128, TritField)>, k: i128, v: TritField, x: int)
    ensures
        assoc_find(s.push((k, v)), x) == if x == k as int {
            Some(v)
        } else {
            assoc_find(s, x)
        },
{
    assert(s.push((k, v)).drop_last() =~= s);
}

/// A word found in a well-formed store is a full word.
pub proof fn lemma_assoc_find_wf(s: Seq<(i128, TritField)>, k: int)
    requires
        store_wf(s),
        assoc_find(s, k) is Some,
    ensures
        assoc_find(s, k).unwrap()@.len() == 27,
    decreases s.len(),
{
    if s.len() > 0 && s.last().0 as int != k {
        assert(store_wf(s.drop_last()));
        lemma_assoc_find_wf(s.drop_last(), k);
    }
}

/// Scans the store newest-first for the key; returns the winning word.
pub fn store_get(list: &Vec<(i128, TritField)>, key: i128) -> (r: Option<&TritField>)
    ensures
        ({
            match r {
                Some(w) => assoc_find(list@, key as int) == Some(*w),
                None => assoc_find(list@, key as int) == None::<TritField>,
            }
        }),
{
    let mut i: usize = list.len();
    proof {
        assert(list@.subrange(0, i as int) =~= list@);
    }
    while i > 0
        invariant
            i <= list@.len(),
            assoc_find(list@.subrange(0, i as int), key as int) == assoc_find(
                list@,
                key as int,
            ),
        decreases i,
    {
        i -= 1;
        proof {
            let s = list@.subrange(0, (i + 1) as int);
            assert(s.last() == list@[i as int]);
            assert(s.drop_last() =~= list@.subrange(0, i as int));
        }
        if list[i].0 == key {
            return Some(&list[i].1);
        }
    }
    proof {
        assert(list@.subrange(0, 0) =~= Seq::<(i128, TritField)>::empty());
    }
    None
}

} // verus!
