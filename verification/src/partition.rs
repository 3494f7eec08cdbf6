//! Splitting one axis of a source image into one span per target cell.
//!
//! The ratio between the source and the target length is the exact fraction
//! `numerator / denominator`. Cell `index` of the target covers the source
//! coordinates from `boundary(index)` up to, but not including,
//! `boundary(index + 1)`.

use std::ops::Range;
use vstd::arithmetic::div_mod::{
    lemma_div_is_ordered, lemma_fundamental_div_mod, lemma_fundamental_div_mod_converse,
};
use vstd::arithmetic::mul::{lemma_mul_inequality, lemma_mul_nonnegative};
use vstd::prelude::*;

verus! {

/// Where target cell `index` begins on the source axis: the cursor
/// `index * numerator / denominator`, rounded down.
pub open spec fn boundary(index: int, numerator: int, denominator: int) -> int {
    (index * numerator) / denominator
}

/// The spans of all `size` target cells, in order, each as `(start, end)`.
pub open spec fn partition(size: nat, numerator: nat, denominator: nat) -> Seq<(int, int)> {
    Seq::new(
        size,
        |index: int|
            (
                boundary(index, numerator as int, denominator as int),
                boundary(index + 1, numerator as int, denominator as int),
            ),
    )
}

/// Whether `ranges` holds exactly the spans of `partition`.
pub open spec fn is_partition(
    ranges: Seq<Range<usize>>,
    size: nat,
    numerator: nat,
    denominator: nat,
) -> bool {
    &&& ranges.len() == size
    &&& forall|index: int|
        0 <= index < size ==> (#[trigger] ranges[index]).start == partition(
            size,
            numerator,
            denominator,
        )[index].0 && ranges[index].end == partition(size, numerator, denominator)[index].1
}

/// Boundaries never move backwards: a later cell begins no earlier.
pub proof fn lemma_boundary_monotonic(earlier: int, later: int, numerator: int, denominator: int)
    requires
        0 <= earlier <= later,
        0 <= numerator,
        0 < denominator,
    ensures
        0 <= boundary(earlier, numerator, denominator) <= boundary(later, numerator, denominator),
{
    lemma_mul_nonnegative(earlier, numerator);
    lemma_mul_inequality(earlier, later, numerator);
    lemma_div_is_ordered(0, earlier * numerator, denominator);
    lemma_div_is_ordered(earlier * numerator, later * numerator, denominator);
}

/// A cursor that is `whole` and `part / denominator` sits in the cell that
/// begins at `whole`.
pub proof fn lemma_boundary_from_cursor(
    index: int,
    numerator: int,
    denominator: int,
    whole: int,
    part: int,
)
    requires
        0 <= part < denominator,
        whole * denominator + part == index * numerator,
    ensures
        boundary(index, numerator, denominator) == whole,
{
    lemma_fundamental_div_mod_converse(index * numerator, denominator, whole, part);
}

/// The first cell begins where the source begins.
pub proof fn lemma_boundary_at_zero(numerator: int, denominator: int)
    requires
        0 < denominator,
    ensures
        boundary(0, numerator, denominator) == 0,
{
    assert(0 * denominator + 0 == 0 * numerator) by (nonlinear_arith);
    lemma_boundary_from_cursor(0, numerator, denominator, 0, 0);
}

/// When the ratio is `source / size`, the last boundary is `source`: the
/// spans cover the source axis exactly.
pub proof fn lemma_boundary_reaches_source(size: int, source: int)
    requires
        0 < size,
        0 <= source,
    ensures
        boundary(size, source, size) == source,
{
    lemma_boundary_from_cursor(size, source, size, source, 0);
}

/// The span of a target cell lies inside the source axis.
pub proof fn lemma_span_in_source(index: int, target: int, source: int)
    requires
        0 <= index < target,
        0 <= source,
    ensures
        0 <= boundary(index, source, target) <= boundary(index + 1, source, target) <= source,
{
    lemma_boundary_monotonic(index, index + 1, source, target);
    lemma_boundary_monotonic(index + 1, target, source, target);
    lemma_boundary_reaches_source(target, source);
}

/// The spans of a partition are as many as the target cells, begin at zero,
/// follow each other without a gap, never end before they begin, and the last
/// one ends at `size * numerator / denominator`, rounded down.
pub proof fn lemma_partition_is_contiguous(size: nat, numerator: nat, denominator: nat)
    requires
        0 < denominator,
    ensures
        partition(size, numerator, denominator).len() == size,
        size > 0 ==> partition(size, numerator, denominator)[0].0 == 0,
        forall|index: int|
            0 <= index < size ==> 0 <= (#[trigger] partition(size, numerator, denominator)[index]).0
                <= partition(size, numerator, denominator)[index].1,
        forall|index: int|
            0 < index < size ==> partition(size, numerator, denominator)[index - 1].1
                == (#[trigger] partition(size, numerator, denominator)[index]).0,
        forall|first: int, second: int|
            0 <= first <= second < size ==> (#[trigger] partition(
                size,
                numerator,
                denominator,
            )[first]).1 <= (#[trigger] partition(size, numerator, denominator)[second]).1,
        size > 0 ==> partition(size, numerator, denominator)[size - 1].1 == (size * numerator)
            / denominator,
{
    let spans = partition(size, numerator, denominator);
    assert forall|index: int| 0 <= index < size implies 0 <= (#[trigger] spans[index]).0
        <= spans[index].1 by {
        lemma_boundary_monotonic(index, index + 1, numerator as int, denominator as int);
    }
    assert forall|first: int, second: int| 0 <= first <= second < size implies (#[trigger] spans[first]).1
        <= (#[trigger] spans[second]).1 by {
        lemma_boundary_monotonic(first + 1, second + 1, numerator as int, denominator as int);
    }
    if size > 0 {
        lemma_boundary_at_zero(numerator as int, denominator as int);
    }
}

/// Searches downwards from cell `below` for the cell whose span holds
/// `coordinate`.
proof fn lemma_find_cell(size: int, source: int, coordinate: int, below: int) -> (index: int)
    requires
        0 < below <= size,
        0 <= coordinate < boundary(below, source, size),
        0 <= source,
    ensures
        0 <= index < below,
        boundary(index, source, size) <= coordinate < boundary(index + 1, source, size),
    decreases below,
{
    if boundary(below - 1, source, size) <= coordinate {
        below - 1
    } else {
        if below == 1 {
            lemma_boundary_at_zero(source, size);
        }
        lemma_find_cell(size, source, coordinate, below - 1)
    }
}

/// When the ratio is `source / size`, every coordinate of the source axis
/// lies in the span of exactly one target cell.
pub proof fn lemma_partition_covers_source(size: nat, source: nat, coordinate: int) -> (index:
    int)
    requires
        0 < size,
        0 <= coordinate < source,
    ensures
        0 <= index < size,
        partition(size, source, size)[index].0 <= coordinate < partition(
            size,
            source,
            size,
        )[index].1,
        forall|other: int|
            0 <= other < size && (#[trigger] partition(size, source, size)[other]).0 <= coordinate
                < partition(size, source, size)[other].1 ==> other == index,
{
    lemma_boundary_reaches_source(size as int, source as int);
    let index = lemma_find_cell(size as int, source as int, coordinate, size as int);
    assert forall|other: int|
        0 <= other < size && (#[trigger] partition(size, source, size)[other]).0 <= coordinate
            < partition(size, source, size)[other].1 implies other == index by {
        if other < index {
            lemma_boundary_monotonic(other + 1, index, source as int, size as int);
        }
        if other > index {
            lemma_boundary_monotonic(index + 1, other, source as int, size as int);
        }
    }
    index
}

/// One step of the cursor: adding the ratio to `whole + part / denominator`
/// gives `next_whole + next_part / denominator`, where `carry` says whether
/// the fractions added up to a whole.
proof fn lemma_cursor_step(
    index: int,
    numerator: int,
    denominator: int,
    whole_step: int,
    part_step: int,
    whole: int,
    part: int,
    carry: int,
    next_whole: int,
    next_part: int,
)
    by (nonlinear_arith)
    requires
        numerator == denominator * whole_step + part_step,
        whole * denominator + part == index * numerator,
        next_whole == whole + whole_step + carry,
        next_part == part + part_step - carry * denominator,
    ensures
        next_whole * denominator + next_part == (index + 1) * numerator,
{
}

/// Splits a source axis into `size` spans, one per target cell, for the ratio
/// `numerator / denominator` of source length to target length.
///
/// A cursor starts at zero and advances by the ratio once per cell; each span
/// runs from the cursor rounded down before the step to the cursor rounded
/// down after it. The cursor keeps its fraction from step to step, so the
/// spans never drift from the exact multiples of the ratio.
pub fn get_ranges_by_ratio(size: usize, numerator: usize, denominator: usize) -> (ranges: Vec<
    Range<usize>,
>)
    requires
        size > 0 ==> denominator > 0,
        size > 0 ==> boundary(size as int, numerator as int, denominator as int) <= usize::MAX,
    ensures
        is_partition(ranges@, size as nat, numerator as nat, denominator as nat),
        size > 0 ==> ranges@[0].start == 0,
        forall|index: int|
            0 <= index < size ==> (#[trigger] ranges@[index]).start <= ranges@[index].end,
        forall|index: int|
            0 < index < size ==> ranges@[index - 1].end == (#[trigger] ranges@[index]).start,
        size > 0 ==> ranges@[size - 1].end == (size * numerator) / (denominator as int),
{
    let mut ranges: Vec<Range<usize>> = Vec::new();
    if size == 0 {
        return ranges;
    }
    let whole_step: usize = numerator / denominator;
    let part_step: usize = numerator % denominator;
    // The cursor is `whole + part / denominator`.
    let mut whole: usize = 0;
    let mut part: usize = 0;
    let mut index: usize = 0;
    proof {
        lemma_fundamental_div_mod(numerator as int, denominator as int);
    }
    while index < size
        invariant
            0 < denominator,
            index <= size,
            part < denominator,
            part_step < denominator,
            numerator == denominator * whole_step + part_step,
            whole * denominator + part == index * numerator,
            boundary(size as int, numerator as int, denominator as int) <= usize::MAX,
            ranges@.len() == index,
            forall|at: int|
                0 <= at < index ==> (#[trigger] ranges@[at]).start == boundary(
                    at,
                    numerator as int,
                    denominator as int,
                ) && ranges@[at].end == boundary(at + 1, numerator as int, denominator as int),
        decreases size - index,
    {
        let start: usize = whole;
        let carry: usize = if part >= denominator - part_step {
            1
        } else {
            0
        };
        let next_part: usize = if carry == 1 {
            part - (denominator - part_step)
        } else {
            part + part_step
        };
        proof {
            let next_whole: int = whole + whole_step + carry;
            lemma_cursor_step(
                index as int,
                numerator as int,
                denominator as int,
                whole_step as int,
                part_step as int,
                whole as int,
                part as int,
                carry as int,
                next_whole,
                next_part as int,
            );
            lemma_boundary_from_cursor(
                index as int,
                numerator as int,
                denominator as int,
                whole as int,
                part as int,
            );
            lemma_boundary_from_cursor(
                index + 1,
                numerator as int,
                denominator as int,
                next_whole,
                next_part as int,
            );
            lemma_boundary_monotonic(
                index + 1,
                size as int,
                numerator as int,
                denominator as int,
            );
        }
        whole = whole + whole_step + carry;
        part = next_part;
        ranges.push(start..whole);
        index = index + 1;
    }
    proof {
        lemma_partition_is_contiguous(size as nat, numerator as nat, denominator as nat);
    }
    ranges
}

} // verus!
