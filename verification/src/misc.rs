//! Support for NUL-terminated string literals.

use vstd::prelude::*;

verus! {

/// The length of the C string in `bytes`: the index of its first NUL byte, or one past
/// the end where it has none.
pub open spec fn spec_c_strlen(bytes: Seq<u8>) -> int
    decreases bytes.len(),
{
    if bytes.len() == 0 {
        1
    } else if bytes[0] == 0 {
        0
    } else {
        1 + spec_c_strlen(bytes.drop_first())
    }
}

proof fn lemma_c_strlen_suffix(bytes: Seq<u8>, i: int)
    requires
        0 <= i <= bytes.len(),
        forall|j: int| 0 <= j < i ==> bytes[j] != 0,
    ensures
        spec_c_strlen(bytes) == i + spec_c_strlen(bytes.skip(i)),
    decreases i,
{
    if i > 0 {
        lemma_c_strlen_suffix(bytes.drop_first(), i - 1);
        assert(bytes.drop_first().skip(i - 1) =~= bytes.skip(i));
    } else {
        assert(bytes.skip(0) =~= bytes);
    }
}

/// The index of the first NUL byte of `bytes`, or `bytes.len() + 1` where it has none.
pub fn c_strlen(bytes: &[u8]) -> (r: usize)
    requires
        bytes@.len() < usize::MAX,
    ensures
        r == spec_c_strlen(bytes@),
{
    let mut i: usize = 0;
    while i < bytes.len()
        invariant
            i <= bytes@.len(),
            bytes@.len() < usize::MAX,
            forall|j: int| 0 <= j < i ==> bytes@[j] != 0,
        decreases bytes@.len() - i,
    {
        if bytes[i] == 0u8 {
            proof {
                lemma_c_strlen_suffix(bytes@, i as int);
            }
            return i;
        }
        i += 1;
    }
    proof {
        lemma_c_strlen_suffix(bytes@, i as int);
    }
    i + 1
}

/// A marker that a string of `IDX` bytes holds no NUL byte before its end: it can only
/// be named where `IDX` equals the string's C length.
pub struct NoInnerNullBytesUntil<const IDX: usize>;

} // verus!
