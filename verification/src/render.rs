//! Rendering bookkeeping: disjoint views of buffer ranges, blending, deformation stacks, vertex
//! buffers, the composites that draw each drawable, and the order of draw calls.

use vstd::prelude::*;
use core::ops::Range;

pub mod blending;
pub mod ctx;
pub mod deform_stack;
pub mod draw_list;
pub mod nesting;
pub mod vertex_buffers;
pub mod zsort;

verus! {

/// `r1` and `r2` in order of their start: the one that starts first, then the other.
pub open spec fn ordered_ranges(r1: Range<usize>, r2: Range<usize>) -> (Range<usize>, Range<usize>) {
    if r2.start < r1.start {
        (r2, r1)
    } else {
        (r1, r2)
    }
}

/// The ranges overlap: the later one starts before the earlier one ends.
pub open spec fn ranges_overlap(r1: Range<usize>, r2: Range<usize>) -> bool {
    let (a, b) = ordered_ranges(r1, r2);
    b.start < a.end
}

/// Both ranges are well formed and lie within `len`.
pub open spec fn ranges_in_bounds(r1: Range<usize>, r2: Range<usize>, len: nat) -> bool {
    r1.start <= r1.end <= len && r2.start <= r2.end <= len
}

/// Two disjoint mutable views of `array`, one for each range, in the order the ranges
/// are given; `None` if the ranges overlap.
pub fn split_ranges<'a, T>(array: &'a mut [T], r1: Range<usize>, r2: Range<usize>) -> (res: Option<
    (&'a mut [T], &'a mut [T]),
>)
    requires
        !ranges_overlap(r1, r2) ==> ranges_in_bounds(r1, r2, old(array)@.len()),
    ensures
        ranges_overlap(r1, r2) <==> res is None,
        ranges_overlap(r1, r2) ==> final(array)@ == old(array)@,
        res matches Some((s1, s2)) ==> {
            &&& s1@ == old(array)@.subrange(r1.start as int, r1.end as int)
            &&& s2@ == old(array)@.subrange(r2.start as int, r2.end as int)
            &&& final(array)@ == (if r2.start < r1.start {
                old(array)@.take(r2.start as int) + final(s2)@ + old(array)@.subrange(
                    r2.end as int,
                    r1.start as int,
                ) + final(s1)@ + old(array)@.skip(r1.end as int)
            } else {
                old(array)@.take(r1.start as int) + final(s1)@ + old(array)@.subrange(
                    r1.end as int,
                    r2.start as int,
                ) + final(s2)@ + old(array)@.skip(r2.end as int)
            })
        },
{
    let mut r1 = r1;
    let mut r2 = r2;
    let swapped = r2.start < r1.start;
    if swapped {
        core::mem::swap(&mut r1, &mut r2);
    }

    // At this point r2 is guaranteed to start after r1
    if r2.start < r1.end {
        return None;
    }

    let (array_1, array_2) = array.split_at_mut(r1.end);
    let (garbo_1, array_1) = array_1.split_at_mut(r1.start);
    let (garbo_2, array_2) = array_2.split_at_mut(r2.start - r1.end);
    let (array_2, garbo_3) = array_2.split_at_mut(r2.end - r2.start);
    proof {
        assert(final(garbo_1)@ == garbo_1@);
        assert(final(garbo_2)@ == garbo_2@);
        assert(final(garbo_3)@ == garbo_3@);
    }

    if swapped {
        Some((array_2, array_1))
    } else {
        Some((array_1, array_2))
    }
}

} // verus!
