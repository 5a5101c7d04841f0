//! Linear gradients of RGBA colors.

use vstd::prelude::*;
use vstd::arithmetic::div_mod::{lemma_div_is_ordered, lemma_div_multiples_vanish};

verus! {

/// Dark blue, as 8-bit RGBA.
pub const AEBLUE_U8: [u8; 4] = [0, 0, 48, 255];

/// Black, as 8-bit RGBA.
pub const BLACK_U8: [u8; 4] = [0, 0, 0, 255];

/// White, as 8-bit RGBA.
pub const WHITE_U8: [u8; 4] = [255, 255, 255, 255];

/// Why a gradient was refused.
#[derive(Clone, Copy, Debug, PartialEq, Eq)]
pub enum PreconditionError {
    /// Fewer than two colors were asked for, so the gradient could not hold
    /// both of its ends. Carries the count that was given.
    CountTooSmall(usize),
}

/// The value of one 8-bit channel at position `index` of a gradient of
/// `count` evenly spaced colors that starts at `first` and ends at `last`.
///
/// The channel moves along the straight line from `first` (at index 0) to
/// `last` (at index `count - 1`); a value that falls between two integers is
/// cut down to the lower one.
pub open spec fn channel_at(first: u8, last: u8, index: int, count: int) -> int {
    (first * (count - 1) + index * (last - first)) / (count - 1)
}

/// The numerator of `channel_at`, written as a weighted sum of the two ends.
proof fn lemma_weighted_sum(first: int, last: int, index: int, steps: int)
    ensures
        first * (steps - index) + last * index == first * steps + index * (last - first),
{
    assert(first * (steps - index) + last * index == first * steps + index * (last - first))
        by (nonlinear_arith);
}

/// Computes one channel of one gradient color.
fn interpolate_channel(first: u8, last: u8, index: usize, count: usize) -> (value: u8)
    requires
        count >= 2,
        index < count,
    ensures
        value == channel_at(first, last, index as int, count as int),
{
    let steps: u128 = (count - 1) as u128;
    let done: u128 = index as u128;
    let left: u128 = steps - done;
    assert(first as int * left as int <= 255 * steps as int) by (nonlinear_arith)
        requires
            0 <= left <= steps,
            0 <= first <= 255,
    ;
    assert(last as int * done as int <= 255 * steps as int) by (nonlinear_arith)
        requires
            0 <= done <= steps,
            0 <= last <= 255,
    ;
    let weighted: u128 = first as u128 * left + last as u128 * done;
    proof {
        lemma_weighted_sum(first as int, last as int, index as int, steps as int);
        assert(first as int * left as int + last as int * done as int <= 255 * steps as int)
            by (nonlinear_arith)
            requires
                left + done == steps,
                0 <= left,
                0 <= done,
                0 <= first <= 255,
                0 <= last <= 255,
        ;
        lemma_div_is_ordered(weighted as int, 255 * steps as int, steps as int);
        lemma_div_multiples_vanish(255, steps as int);
        assert(255 * steps as int == steps as int * 255) by (nonlinear_arith);
    }
    let value: u128 = weighted / steps;
    value as u8
}

/// Whether `range` is the gradient of `count` colors from `first` to `last`:
/// it has `count` entries, and each channel of each entry is the
/// interpolated value for its index.
pub open spec fn is_linear_range(
    range: Seq<[u8; 4]>,
    first: [u8; 4],
    last: [u8; 4],
    count: int,
) -> bool {
    &&& range.len() == count
    &&& forall|i: int, c: int|
        0 <= i < count && 0 <= c < 4 ==> (#[trigger] range[i][c]) == channel_at(
            first[c],
            last[c],
            i,
            count,
        )
}

/// A gradient begins exactly at its first color.
pub proof fn lemma_channel_starts_at_first(first: u8, last: u8, count: int)
    requires
        count >= 2,
    ensures
        channel_at(first, last, 0, count) == first,
{
    lemma_div_multiples_vanish(first as int, count - 1);
    assert(first * (count - 1) + 0 * (last - first) == (count - 1) * first) by (nonlinear_arith);
}

/// A gradient ends exactly at its last color.
pub proof fn lemma_channel_ends_at_last(first: u8, last: u8, count: int)
    requires
        count >= 2,
    ensures
        channel_at(first, last, count - 1, count) == last,
{
    lemma_div_multiples_vanish(last as int, count - 1);
    assert(first * (count - 1) + (count - 1) * (last - first) == (count - 1) * last)
        by (nonlinear_arith);
}

/// Along a gradient each channel moves in one direction only: it never
/// falls where the last color is at least the first, and never rises where
/// the last color is at most the first.
pub proof fn lemma_channel_monotonic(first: u8, last: u8, i: int, j: int, count: int)
    requires
        count >= 2,
        0 <= i <= j < count,
    ensures
        first <= last ==> channel_at(first, last, i, count) <= channel_at(first, last, j, count),
        first >= last ==> channel_at(first, last, i, count) >= channel_at(first, last, j, count),
{
    let steps = count - 1;
    let delta = last - first;
    if first <= last {
        assert(i * delta <= j * delta) by (nonlinear_arith)
            requires
                i <= j,
                delta >= 0,
        ;
        lemma_div_is_ordered(first * steps + i * delta, first * steps + j * delta, steps);
    }
    if first >= last {
        assert(j * delta <= i * delta) by (nonlinear_arith)
            requires
                i <= j,
                delta <= 0,
        ;
        lemma_div_is_ordered(first * steps + j * delta, first * steps + i * delta, steps);
    }
}

/// Every channel of every gradient color lies between the two ends.
pub proof fn lemma_channel_between_ends(first: u8, last: u8, index: int, count: int)
    requires
        count >= 2,
        0 <= index < count,
    ensures
        first <= last ==> first <= channel_at(first, last, index, count) <= last,
        first >= last ==> last <= channel_at(first, last, index, count) <= first,
{
    lemma_channel_starts_at_first(first, last, count);
    lemma_channel_ends_at_last(first, last, count);
    lemma_channel_monotonic(first, last, 0, index, count);
    lemma_channel_monotonic(first, last, index, count - 1, count);
}

/// Generates a linear range of RGBA colors from a start color to a final
/// color: `count` colors, the first equal to `first`, the last equal to
/// `last`, and every channel of those in between interpolated along a
/// straight line and cut down to a whole number.
pub fn color_range_linear(first: [u8; 4], last: [u8; 4], count: usize) -> (range: Vec<[u8; 4]>)
    requires
        count >= 2,
    ensures
        is_linear_range(range@, first, last, count as int),
        range@[0] == first,
        range@[count - 1] == last,
{
    let mut range: Vec<[u8; 4]> = Vec::new();
    let mut index: usize = 0;
    while index < count
        invariant
            count >= 2,
            index <= count,
            range@.len() == index,
            forall|i: int, c: int|
                0 <= i < index && 0 <= c < 4 ==> (#[trigger] range@[i][c]) == channel_at(
                    first[c],
                    last[c],
                    i,
                    count as int,
                ),
        decreases count - index,
    {
        let color: [u8; 4] = [
            interpolate_channel(first[0], last[0], index, count),
            interpolate_channel(first[1], last[1], index, count),
            interpolate_channel(first[2], last[2], index, count),
            interpolate_channel(first[3], last[3], index, count),
        ];
        range.push(color);
        index += 1;
    }
    proof {
        assert forall|c: int| 0 <= c < 4 implies range@[0][c] == first[c] by {
            lemma_channel_starts_at_first(first[c], last[c], count as int);
        }
        assert forall|c: int| 0 <= c < 4 implies range@[count - 1][c] == last[c] by {
            lemma_channel_ends_at_last(first[c], last[c], count as int);
        }
        assert(range@[0] =~= first);
        assert(range@[count - 1] =~= last);
    }
    range
}

/// Generates a linear range of RGBA colors as `color_range_linear` does,
/// for any `count`: a count below two is refused with
/// `PreconditionError::CountTooSmall`, and every other count succeeds.
pub fn try_color_range_linear(first: [u8; 4], last: [u8; 4], count: usize) -> (outcome: Result<
    Vec<[u8; 4]>,
    PreconditionError,
>)
    ensures
        count < 2 <==> outcome == Err::<Vec<[u8; 4]>, PreconditionError>(
            PreconditionError::CountTooSmall(count),
        ),
        count >= 2 <==> outcome is Ok,
        outcome matches Ok(range) ==> {
            &&& is_linear_range(range@, first, last, count as int)
            &&& range@[0] == first
            &&& range@[count - 1] == last
        },
{
    if count < 2 {
        Err(PreconditionError::CountTooSmall(count))
    } else {
        Ok(color_range_linear(first, last, count))
    }
}

} // verus!
