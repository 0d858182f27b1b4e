//! Byte search, forwards and backwards, with exact contracts: the index
//! found is a match and everything before (after) it is not.

use vstd::prelude::*;

verus! {

/// The first index holding `x` in `text`, if any.
pub fn memchr(x: u8, text: &[u8]) -> (r: Option<usize>)
    ensures
        match r {
            Some(i) => i < text@.len() && text@[i as int] == x && (forall|j: int|
                0 <= j < i ==> text@[j] != x),
            None => forall|j: int| 0 <= j < text@.len() ==> text@[j] != x,
        },
{
    let len = text.len();
    let mut i: usize = 0;
    while i < len
        invariant
            0 <= i <= len,
            len == text@.len(),
            forall|j: int| 0 <= j < i ==> text@[j] != x,
        decreases len - i,
    {
        if text[i] == x {
            return Some(i);
        }
        i = i + 1;
    }
    None
}

/// The last index holding `x` in `text`, if any.
pub fn memrchr(x: u8, text: &[u8]) -> (r: Option<usize>)
    ensures
        match r {
            Some(i) => i < text@.len() && text@[i as int] == x && (forall|j: int|
                i < j < text@.len() ==> text@[j] != x),
            None => forall|j: int| 0 <= j < text@.len() ==> text@[j] != x,
        },
{
    let mut i = text.len();
    while i > 0
        invariant
            0 <= i <= text@.len(),
            forall|j: int| i <= j < text@.len() ==> text@[j] != x,
        decreases i,
    {
        i = i - 1;
        if text[i] == x {
            return Some(i);
        }
    }
    None
}

} // verus!
