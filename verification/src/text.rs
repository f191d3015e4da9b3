//! Comparing and copying text.

use vstd::prelude::*;
use vstd::string::*;
use vstd::utf8::*;

verus! {

/// Whether two texts hold the same characters.
pub fn same_text(left: &str, right: &str) -> (same: bool)
    ensures
        same == (left@ == right@),
{
    broadcast use {encode_utf8_decode_utf8, encode_utf8_valid_utf8};
    let a = left.as_bytes();
    let b = right.as_bytes();
    if a.len() != b.len() {
        return false;
    }
    let mut i: usize = 0;
    while i < a.len()
        invariant
            a@ == left.spec_bytes(),
            b@ == right.spec_bytes(),
            a@.len() == b@.len(),
            i <= a@.len(),
            forall|j: int| 0 <= j < i ==> a@[j] == b@[j],
        decreases a.len() - i,
    {
        if a[i] != b[i] {
            return false;
        }
        i += 1;
    }
    proof {
        assert(a@ =~= b@);
        assert(decode_utf8(encode_utf8(left@)) == left@);
        assert(decode_utf8(encode_utf8(right@)) == right@);
    }
    true
}

/// A copy of a vector of plain values.
pub fn copy_of<T: Copy>(items: &Vec<T>) -> (copy: Vec<T>)
    ensures
        copy@ == items@,
{
    let mut copy: Vec<T> = Vec::new();
    let mut i: usize = 0;
    while i < items.len()
        invariant
            i <= items@.len(),
            copy@ == items@.subrange(0, i as int),
        decreases items.len() - i,
    {
        copy.push(items[i]);
        proof {
            assert(copy@ =~= items@.subrange(0, i + 1));
        }
        i += 1;
    }
    proof {
        assert(copy@ =~= items@);
    }
    copy
}

} // verus!
