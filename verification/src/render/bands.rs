//! How the rows of an image are dealt out to workers.

use std::ops::Range;
use vstd::prelude::*;

verus! {

/// First row of band `i` when `rows` rows are dealt into `count` bands: every
/// band gets `rows / count` rows and the first `rows % count` bands one more.
/// With fewer rows than bands the bands after the first `rows` are empty.
pub open spec fn band_start(rows: int, count: int, i: int) -> int {
    i * (rows / count) + if i < rows % count {
        i
    } else {
        rows % count
    }
}

/// The bands are laid end to end over the rows of the image: the first
/// starts at row 0, each starts where the one before it ends, and the last
/// ends at `rows`. No bands at all cover an image without rows.
pub open spec fn covers_rows(bands: Seq<Range<u32>>, rows: int) -> bool {
    &&& bands.len() == 0 ==> rows == 0
    &&& bands.len() > 0 ==> bands[0].start == 0 && bands[bands.len() - 1].end == rows
    &&& forall|i: int| 0 <= i < bands.len() ==> (#[trigger] bands[i]).start <= bands[i].end
    &&& forall|i: int|
        0 <= i < bands.len() - 1 ==> (#[trigger] bands[i]).end == bands[i + 1].start
}

/// No band is more than one row longer than any other.
pub open spec fn balanced(bands: Seq<Range<u32>>) -> bool {
    forall|i: int, j: int|
        0 <= i < bands.len() && 0 <= j < bands.len() ==> (#[trigger] bands[i]).end
            - bands[i].start <= (#[trigger] bands[j]).end - bands[j].start + 1
}

/// The starts of the bands of `rows` rows dealt into `count` bands step by
/// `rows / count` or one more, begin at 0 and end at `rows`.
pub proof fn lemma_band_start_steps(rows: int, count: int, i: int)
    requires
        0 <= rows,
        0 < count,
        0 <= i < count,
    ensures
        band_start(rows, count, 0) == 0,
        band_start(rows, count, count) == rows,
        band_start(rows, count, i + 1) - band_start(rows, count, i) == rows / count + if i < rows
            % count {
            1int
        } else {
            0int
        },
        0 <= band_start(rows, count, i) <= band_start(rows, count, i + 1) <= rows,
{
    let g = rows / count;
    let r = rows % count;
    assert(rows == count * g + r && 0 <= r < count) by {
        vstd::arithmetic::div_mod::lemma_fundamental_div_mod(rows, count);
        vstd::arithmetic::div_mod::lemma_mod_bound(rows, count);
    }
    assert(0 <= g) by {
        vstd::arithmetic::div_mod::lemma_div_pos_is_pos(rows, count);
    }
    assert((i + 1) * g == i * g + g) by (nonlinear_arith);
    assert(0 <= i * g) by (nonlinear_arith)
        requires
            0 <= i,
            0 <= g,
    ;
    assert((i + 1) * g <= count * g) by (nonlinear_arith)
        requires
            i + 1 <= count,
            0 <= g,
    ;
}

/// Of bands laid end to end, an earlier one ends before a later one starts.
proof fn lemma_bands_in_order(bands: Seq<Range<u32>>, rows: int, i: int, j: int)
    requires
        covers_rows(bands, rows),
        0 <= i < j < bands.len(),
    ensures
        bands[i].end <= bands[j].start,
    decreases j - i,
{
    if j > i + 1 {
        lemma_bands_in_order(bands, rows, i, j - 1);
        assert(bands[j - 1].start <= bands[j - 1].end);
        assert(bands[j - 1].end == bands[j].start);
    }
}

/// A band at or after `from` that holds `row`.
proof fn lemma_find_band(bands: Seq<Range<u32>>, rows: int, row: int, from: int) -> (i: int)
    requires
        covers_rows(bands, rows),
        0 <= row < rows,
        0 <= from < bands.len(),
        bands[from].start <= row,
    ensures
        from <= i < bands.len(),
        bands[i].start <= row < bands[i].end,
    decreases bands.len() - from,
{
    if row < bands[from].end {
        from
    } else {
        lemma_find_band(bands, rows, row, from + 1)
    }
}

/// Bands that are laid end to end over `rows` rows leave no gap and do not
/// overlap: every row of the image lies in exactly one of them.
pub proof fn lemma_row_in_one_band(bands: Seq<Range<u32>>, rows: int, row: int) -> (i: int)
    requires
        covers_rows(bands, rows),
        0 <= row < rows,
    ensures
        0 <= i < bands.len(),
        bands[i].start <= row < bands[i].end,
        forall|k: int|
            0 <= k < bands.len() && (#[trigger] bands[k]).start <= row < bands[k].end ==> k == i,
{
    let i = lemma_find_band(bands, rows, row, 0);
    assert forall|k: int|
        0 <= k < bands.len() && (#[trigger] bands[k]).start <= row < bands[k].end implies k
        == i by {
        if k < i {
            lemma_bands_in_order(bands, rows, k, i);
        } else if i < k {
            lemma_bands_in_order(bands, rows, i, k);
        }
    }
    i
}

/// The row of the output image that holds row `row` of the render, which
/// counts its rows from the bottom.
pub fn output_row(image_height: u32, row: u32) -> (y: u32)
    requires
        row < image_height,
    ensures
        y == image_height - 1 - row,
        y < image_height,
{
    image_height - 1 - row
}

/// Deals `rows` image rows out to `ranges` workers as contiguous bands.
///
/// There is one band for each worker. Each band has `rows / ranges` rows, and
/// the first `rows % ranges` bands take one row more.
pub fn divide_into_ranges(rows: u32, ranges: u32) -> (bands: Vec<Range<u32>>)
    requires
        rows == 0 || ranges > 0,
    ensures
        bands@.len() == ranges,
        forall|i: int|
            0 <= i < bands@.len() ==> (#[trigger] bands@[i]).start == band_start(
                rows as int,
                ranges as int,
                i,
            ) && bands@[i].end == band_start(rows as int, ranges as int, i + 1),
        covers_rows(bands@, rows as int),
        balanced(bands@),
{
    let mut results: Vec<Range<u32>> = Vec::new();
    if ranges == 0 {
        return results;
    }
    let group_size: u32 = rows / ranges;
    let mut remain: u32 = rows % ranges;
    let mut end: u32 = 0;
    let mut n: u32 = 0;
    while n < ranges
        invariant
            0 < ranges,
            group_size == rows / ranges,
            n <= ranges,
            remain == if n < rows % ranges {
                rows % ranges - n
            } else {
                0
            },
            end == band_start(rows as int, ranges as int, n as int),
            results@.len() == n,
            forall|k: int|
                0 <= k < n ==> (#[trigger] results@[k]).start == band_start(
                    rows as int,
                    ranges as int,
                    k,
                ) && results@[k].end == band_start(rows as int, ranges as int, k + 1),
        decreases ranges - n,
    {
        proof {
            lemma_band_start_steps(rows as int, ranges as int, n as int);
        }
        let start: u32 = end;
        end = start + group_size;
        if remain > 0 {
            end += 1;
            remain -= 1;
        }
        results.push(Range { start, end });
        n += 1;
    }
    proof {
        let r = rows as int;
        let c = ranges as int;
        lemma_band_start_steps(r, c, 0);
        assert forall|i: int| 0 <= i < c implies (#[trigger] results@[i]).start
            <= results@[i].end && 0 <= results@[i].end - results@[i].start - r / c <= 1 by {
            lemma_band_start_steps(r, c, i);
        }
    }
    results
}

} // verus!
