//! Scaling by box averaging: every cell of the target is the average of the
//! brightness samples in its box of the source.

use crate::grayscale::{grayscale_of, to_grayscale};
use crate::partition::{
    get_ranges_by_ratio, is_partition, lemma_boundary_from_cursor, lemma_boundary_reaches_source,
    lemma_span_in_source, partition,
};
use crate::{ImageData, ScaleError};
use std::ops::Range;
use vstd::arithmetic::div_mod::lemma_fundamental_div_mod_converse;
use vstd::prelude::*;

verus! {

/// The sum of the samples of one source row, from column `left` up to, but
/// not including, column `right`. `offset` is where the row begins in `gray`.
pub open spec fn row_sum(gray: Seq<u8>, offset: int, left: int, right: int) -> int
    decreases right - left,
{
    if right <= left {
        0
    } else {
        row_sum(gray, offset, left, right - 1) + gray[offset + right - 1]
    }
}

/// The sum of the samples in the rows from `top` up to `bottom` and in the
/// columns from `left` up to `right` of a source that is `source_width` wide.
pub open spec fn box_sum(
    gray: Seq<u8>,
    source_width: int,
    top: int,
    bottom: int,
    left: int,
    right: int,
) -> int
    decreases bottom - top,
{
    if bottom <= top {
        0
    } else {
        box_sum(gray, source_width, top, bottom - 1, left, right) + row_sum(
            gray,
            (bottom - 1) * source_width,
            left,
            right,
        )
    }
}

/// How many samples lie in the box.
pub open spec fn box_count(top: int, bottom: int, left: int, right: int) -> int {
    if bottom <= top || right <= left {
        0
    } else {
        (bottom - top) * (right - left)
    }
}

/// The brightness of a target cell whose box is the given rows and columns of
/// the source: zero for a box without samples, else the average of its
/// samples, rounded down.
pub open spec fn box_average(
    gray: Seq<u8>,
    source_width: int,
    top: int,
    bottom: int,
    left: int,
    right: int,
) -> u8 {
    let count = box_count(top, bottom, left, right);
    if count == 0 {
        0u8
    } else {
        (box_sum(gray, source_width, top, bottom, left, right) / count) as u8
    }
}

/// The brightness of the target cell in row `row` and column `column`: the
/// average over the box that the row's span and the column's span cut out of
/// the source.
pub open spec fn cell_value(
    gray: Seq<u8>,
    source_width: nat,
    source_height: nat,
    target_width: nat,
    target_height: nat,
    row: int,
    column: int,
) -> u8 {
    let rows = partition(target_height, source_height, target_height)[row];
    let columns = partition(target_width, source_width, target_width)[column];
    box_average(gray, source_width as int, rows.0, rows.1, columns.0, columns.1)
}

/// The target grid, row after row.
pub open spec fn resampled(
    gray: Seq<u8>,
    source_width: nat,
    source_height: nat,
    target_width: nat,
    target_height: nat,
) -> Seq<u8> {
    Seq::new(
        target_width * target_height,
        |cell: int|
            cell_value(
                gray,
                source_width,
                source_height,
                target_width,
                target_height,
                cell / (target_width as int),
                cell % (target_width as int),
            ),
    )
}

/// A sample in row `row` and column `column` of a source of the given size
/// lies inside its buffer.
pub proof fn lemma_sample_in_bounds(row: int, column: int, width: int, height: int)
    by (nonlinear_arith)
    requires
        0 <= row < height,
        0 <= column < width,
    ensures
        0 <= row * width + column < width * height,
{
}

/// The cell in row `row` and column `column` is cell `row * width + column`
/// of the grid, and from that number its row and column are found again.
pub proof fn lemma_cell_position(row: int, column: int, width: int, height: int)
    requires
        0 <= row < height,
        0 <= column < width,
    ensures
        0 <= row * width + column < width * height,
        (row * width + column) / width == row,
        (row * width + column) % width == column,
{
    lemma_sample_in_bounds(row, column, width, height);
    lemma_fundamental_div_mod_converse(row * width + column, width, row, column);
}

/// Row `row` of a source of the given size lies inside its buffer, whatever
/// the width.
pub proof fn lemma_row_in_bounds(row: int, width: int, height: int)
    by (nonlinear_arith)
    requires
        0 <= row < height,
        0 <= width,
    ensures
        0 <= row * width,
        row * width + width <= width * height,
{
}

/// The samples of part of a row add up to no more than 255 times their
/// number.
pub proof fn lemma_row_sum_bounds(gray: Seq<u8>, offset: int, left: int, right: int)
    requires
        left <= right,
    ensures
        0 <= row_sum(gray, offset, left, right) <= 255 * (right - left),
    decreases right - left,
{
    if left < right {
        lemma_row_sum_bounds(gray, offset, left, right - 1);
    }
}

/// The samples of a box add up to no more than 255 times their number.
pub proof fn lemma_box_sum_bounds(
    gray: Seq<u8>,
    source_width: int,
    top: int,
    bottom: int,
    left: int,
    right: int,
)
    requires
        top <= bottom,
        left <= right,
    ensures
        0 <= box_sum(gray, source_width, top, bottom, left, right) <= 255 * ((bottom - top) * (
        right - left)),
    decreases bottom - top,
{
    if top < bottom {
        lemma_box_sum_bounds(gray, source_width, top, bottom - 1, left, right);
        lemma_row_sum_bounds(gray, (bottom - 1) * source_width, left, right);
        assert((bottom - top) * (right - left) == (bottom - 1 - top) * (right - left) + (right
            - left)) by (nonlinear_arith);
    } else {
        assert((bottom - top) * (right - left) == 0) by (nonlinear_arith)
            requires
                bottom == top,
        ;
    }
}

/// An average of samples is itself a sample: it fits in a byte.
pub proof fn lemma_average_is_byte(sum: int, count: int)
    by (nonlinear_arith)
    requires
        0 < count,
        0 <= sum <= 255 * count,
    ensures
        0 <= sum / count <= 255,
{
}

/// The average of a box with samples is the sum of its samples divided by
/// their number, rounded down: it always fits in a byte.
pub proof fn lemma_box_average_is_floor(
    gray: Seq<u8>,
    source_width: int,
    top: int,
    bottom: int,
    left: int,
    right: int,
)
    requires
        top < bottom,
        left < right,
    ensures
        box_count(top, bottom, left, right) == (bottom - top) * (right - left) > 0,
        box_average(gray, source_width, top, bottom, left, right) as int == box_sum(
            gray,
            source_width,
            top,
            bottom,
            left,
            right,
        ) / ((bottom - top) * (right - left)),
{
    let count = (bottom - top) * (right - left);
    assert(count > 0) by (nonlinear_arith)
        requires
            count == (bottom - top) * (right - left),
            top < bottom,
            left < right,
    ;
    lemma_box_sum_bounds(gray, source_width, top, bottom, left, right);
    lemma_average_is_byte(box_sum(gray, source_width, top, bottom, left, right), count);
}

/// A box of one row and one column holds one sample, and that sample is its
/// average.
pub proof fn lemma_single_sample_box(gray: Seq<u8>, source_width: int, row: int, column: int)
    ensures
        box_average(gray, source_width, row, row + 1, column, column + 1) == gray[row
            * source_width + column],
{
    let offset = row * source_width;
    assert(row_sum(gray, offset, column, column) == 0);
    assert(row_sum(gray, offset, column, column + 1) == gray[offset + column]);
    assert(box_sum(gray, source_width, row, row, column, column + 1) == 0);
    assert(box_sum(gray, source_width, row, row + 1, column, column + 1) == gray[offset
        + column]);
    assert(box_count(row, row + 1, column, column + 1) == 1) by (nonlinear_arith);
}

/// Scaling to the size of the source changes nothing: every cell is one
/// sample, and the grid is the buffer it was made from.
pub proof fn lemma_same_size_keeps_samples(gray: Seq<u8>, width: nat, height: nat)
    requires
        gray.len() == width * height,
    ensures
        resampled(gray, width, height, width, height) == gray,
{
    let grid = resampled(gray, width, height, width, height);
    assert forall|cell: int| 0 <= cell < grid.len() implies grid[cell] == gray[cell] by {
        let row = cell / (width as int);
        let column = cell % (width as int);
        assert(width > 0 && 0 <= row < height && 0 <= column < width && row * width + column
            == cell) by (nonlinear_arith)
            requires
                0 <= cell < width * height,
                row == cell / (width as int),
                column == cell % (width as int),
        ;
        lemma_boundary_from_cursor(row, height as int, height as int, row, 0);
        lemma_boundary_from_cursor(row + 1, height as int, height as int, row + 1, 0);
        lemma_boundary_from_cursor(column, width as int, width as int, column, 0);
        lemma_boundary_from_cursor(column + 1, width as int, width as int, column + 1, 0);
        lemma_single_sample_box(gray, width as int, row, column);
    }
    assert(grid =~= gray);
}

/// How many samples lie before column `column` of row `row`, counted from the
/// first sample of the box, and that they are no more than the source holds.
proof fn lemma_count_step(
    top: int,
    row: int,
    bottom: int,
    left: int,
    column: int,
    right: int,
    width: int,
    height: int,
)
    by (nonlinear_arith)
    requires
        0 <= top <= row < bottom <= height,
        0 <= left <= column < right <= width,
    ensures
        0 <= (row - top) * (right - left) + (column - left) < width * height,
        (row + 1 - top) * (right - left) == (row - top) * (right - left) + (right - left),
{
}

/// Averages the samples of one box of the source, rounding down. A box
/// without samples gives zero.
pub fn average_box(
    gray: &[u8],
    source_width: usize,
    source_height: usize,
    rows: &Range<usize>,
    columns: &Range<usize>,
) -> (average: u8)
    requires
        gray@.len() == source_width * source_height,
        rows.start <= rows.end <= source_height,
        columns.start <= columns.end <= source_width,
    ensures
        average == box_average(
            gray@,
            source_width as int,
            rows.start as int,
            rows.end as int,
            columns.start as int,
            columns.end as int,
        ),
{
    let top: usize = rows.start;
    let bottom: usize = rows.end;
    let left: usize = columns.start;
    let right: usize = columns.end;
    assert(gray@.len() == gray.len() <= usize::MAX);
    let mut sum: u128 = 0;
    let mut count: usize = 0;
    let mut row: usize = top;
    while row < bottom
        invariant
            gray@.len() == source_width * source_height,
            gray@.len() <= usize::MAX,
            top <= row <= bottom <= source_height,
            left <= right <= source_width,
            sum == box_sum(gray@, source_width as int, top as int, row as int, left as int, right as int),
            count == if left == right {
                0
            } else {
                (row - top) * (right - left)
            },
            sum <= 255 * count,
        decreases bottom - row,
    {
        proof {
            lemma_row_in_bounds(row as int, source_width as int, source_height as int);
        }
        let offset: usize = row * source_width;
        let mut column: usize = left;
        while column < right
            invariant
                gray@.len() == source_width * source_height,
                gray@.len() <= usize::MAX,
                top <= row < bottom <= source_height,
                left <= column <= right <= source_width,
                offset == row * source_width,
                sum == box_sum(
                    gray@,
                    source_width as int,
                    top as int,
                    row as int,
                    left as int,
                    right as int,
                ) + row_sum(gray@, offset as int, left as int, column as int),
                count == (row - top) * (right - left) + (column - left),
                sum <= 255 * count,
            decreases right - column,
        {
            proof {
                lemma_sample_in_bounds(
                    row as int,
                    column as int,
                    source_width as int,
                    source_height as int,
                );
                lemma_count_step(
                    top as int,
                    row as int,
                    bottom as int,
                    left as int,
                    column as int,
                    right as int,
                    source_width as int,
                    source_height as int,
                );
            }
            sum = sum + gray[offset + column] as u128;
            count = count + 1;
            column = column + 1;
        }
        proof {
            if left < right {
                lemma_count_step(
                    top as int,
                    row as int,
                    bottom as int,
                    left as int,
                    left as int,
                    right as int,
                    source_width as int,
                    source_height as int,
                );
            }
        }
        row = row + 1;
    }
    if count == 0 {
        proof {
            if top < bottom && left < right {
                lemma_count_step(
                    top as int,
                    top as int,
                    bottom as int,
                    left as int,
                    left as int,
                    right as int,
                    source_width as int,
                    source_height as int,
                );
                assert((bottom - top) * (right - left) >= right - left) by (nonlinear_arith)
                    requires
                        bottom - top >= 1,
                        right - left >= 0,
                ;
            }
        }
        0
    } else {
        proof {
            lemma_average_is_byte(sum as int, count as int);
        }
        (sum / (count as u128)) as u8
    }
}

/// Scales a buffer of brightness samples, `source_width` by `source_height`,
/// to a grid of `target_width` by `target_height` cells.
///
/// Both axes of the source are split into one span per target cell. Each
/// cell, row after row, becomes the average of the samples in the box of its
/// row span and its column span. Where the target is finer than the source
/// some boxes hold no sample; such a cell is zero.
pub fn resample(
    gray: &[u8],
    source_width: usize,
    source_height: usize,
    target_width: usize,
    target_height: usize,
) -> (grid: ImageData)
    requires
        gray@.len() == source_width * source_height,
        target_width * target_height <= usize::MAX,
    ensures
        grid.width == target_width,
        grid.height == target_height,
        grid.is_grid(),
        grid.data@ == resampled(
            gray@,
            source_width as nat,
            source_height as nat,
            target_width as nat,
            target_height as nat,
        ),
{
    proof {
        if target_width > 0 {
            lemma_boundary_reaches_source(target_width as int, source_width as int);
        }
        if target_height > 0 {
            lemma_boundary_reaches_source(target_height as int, source_height as int);
        }
    }
    let columns = get_ranges_by_ratio(target_width, source_width, target_width);
    let rows = get_ranges_by_ratio(target_height, source_height, target_height);
    let ghost expected = resampled(
        gray@,
        source_width as nat,
        source_height as nat,
        target_width as nat,
        target_height as nat,
    );
    let mut data: Vec<u8> = Vec::new();
    let mut row: usize = 0;
    while row < target_height
        invariant
            gray@.len() == source_width * source_height,
            target_width * target_height <= usize::MAX,
            row <= target_height,
            is_partition(
                columns@,
                target_width as nat,
                source_width as nat,
                target_width as nat,
            ),
            is_partition(
                rows@,
                target_height as nat,
                source_height as nat,
                target_height as nat,
            ),
            expected == resampled(
                gray@,
                source_width as nat,
                source_height as nat,
                target_width as nat,
                target_height as nat,
            ),
            data@.len() == row * target_width,
            forall|cell: int| 0 <= cell < data@.len() ==> data@[cell] == expected[cell],
        decreases target_height - row,
    {
        let mut column: usize = 0;
        while column < target_width
            invariant
                gray@.len() == source_width * source_height,
                target_width * target_height <= usize::MAX,
                row < target_height,
                column <= target_width,
                is_partition(
                    columns@,
                    target_width as nat,
                    source_width as nat,
                    target_width as nat,
                ),
                is_partition(
                    rows@,
                    target_height as nat,
                    source_height as nat,
                    target_height as nat,
                ),
                expected == resampled(
                    gray@,
                    source_width as nat,
                    source_height as nat,
                    target_width as nat,
                    target_height as nat,
                ),
                data@.len() == row * target_width + column,
                forall|cell: int| 0 <= cell < data@.len() ==> data@[cell] == expected[cell],
            decreases target_width - column,
        {
            proof {
                lemma_span_in_source(row as int, target_height as int, source_height as int);
                lemma_span_in_source(column as int, target_width as int, source_width as int);
                lemma_cell_position(
                    row as int,
                    column as int,
                    target_width as int,
                    target_height as int,
                );
            }
            let value = average_box(gray, source_width, source_height, &rows[row], &columns[column]);
            data.push(value);
            column = column + 1;
        }
        proof {
            assert((row + 1) * target_width == row * target_width + target_width)
                by (nonlinear_arith);
        }
        row = row + 1;
    }
    proof {
        assert(data@.len() == target_width * target_height) by (nonlinear_arith)
            requires
                data@.len() == row * target_width,
                row == target_height,
        ;
        assert(data@ =~= expected);
    }
    ImageData { width: target_width, height: target_height, data }
}

/// Scales a source image of red, green, blue and alpha bytes to a grid of
/// brightness, `end_width` by `end_height` cells.
///
/// The image is refused unless it holds exactly four bytes for each of its
/// `width * height` pixels. A target without cells gives an empty grid.
pub fn scale(image_data: &ImageData, end_width: usize, end_height: usize) -> (scaled: Result<
    ImageData,
    ScaleError,
>)
    requires
        end_width * end_height <= usize::MAX,
    ensures
        scaled is Ok <==> image_data.is_rgba(),
        scaled matches Ok(grid) ==> {
            &&& grid.width == end_width
            &&& grid.height == end_height
            &&& grid.is_grid()
            &&& grid.data@ == resampled(
                grayscale_of(image_data.data@),
                image_data.width as nat,
                image_data.height as nat,
                end_width as nat,
                end_height as nat,
            )
        },
        scaled matches Err(error) ==> error == ScaleError::InvalidInput,
{
    let bytes: usize = image_data.data.len();
    let pixels = match image_data.width.checked_mul(image_data.height) {
        Some(pixels) => pixels,
        None => {
            return Err(ScaleError::InvalidInput);
        },
    };
    if bytes % 4 != 0 || bytes / 4 != pixels {
        return Err(ScaleError::InvalidInput);
    }
    match to_grayscale(image_data.data.as_slice()) {
        Ok(gray) => Ok(
            resample(gray.as_slice(), image_data.width, image_data.height, end_width, end_height),
        ),
        Err(error) => Err(error),
    }
}

} // verus!
