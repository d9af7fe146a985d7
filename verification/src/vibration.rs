//! The vibration map: every pixel of a single-channel frame is coloured by
//! the number of lit pixels around it.

use vstd::prelude::*;
use crate::bounds::PyColorBounds;
use crate::matrix::{ElementType, Matrix, MatrixView, ProcessError};

verus! {

/// Number of channels of a vibration map.
pub const COLOR_CHANNELS: usize = 3;

/// 1 where the pixel at row `r`, column `c` of a single-channel buffer is
/// nonzero, else 0.
pub open spec fn lit(data: Seq<u8>, columns: int, r: int, c: int) -> int {
    if data[r * columns + c] != 0 {
        1
    } else {
        0
    }
}

/// Number of lit pixels of column `c` in the rows `r_lo..r_hi`.
pub open spec fn column_count(data: Seq<u8>, columns: int, c: int, r_lo: int, r_hi: int) -> int
    decreases r_hi - r_lo,
{
    if r_hi <= r_lo {
        0
    } else {
        column_count(data, columns, c, r_lo, r_hi - 1) + lit(data, columns, r_hi - 1, c)
    }
}

/// Number of lit pixels in the rows `r_lo..r_hi` of the columns `c_lo..c_hi`.
pub open spec fn block_count(
    data: Seq<u8>,
    columns: int,
    r_lo: int,
    r_hi: int,
    c_lo: int,
    c_hi: int,
) -> int
    decreases c_hi - c_lo,
{
    if c_hi <= c_lo {
        0
    } else {
        block_count(data, columns, r_lo, r_hi, c_lo, c_hi - 1) + column_count(
            data,
            columns,
            c_hi - 1,
            r_lo,
            r_hi,
        )
    }
}

/// First index of the window of radius `w` around `x`, clipped at 0.
pub open spec fn window_start(x: int, w: int) -> int {
    if x < w {
        0
    } else {
        x - w
    }
}

/// One past the last index of the window of radius `w` around `x`, clipped at
/// the extent `n`.
pub open spec fn window_end(x: int, w: int, n: int) -> int {
    if x + w + 1 > n {
        n
    } else {
        x + w + 1
    }
}

/// The activity of the pixel at `(r, c)`: the number of lit pixels in the
/// square window of radius `w` around it, clipped to the image, the pixel
/// itself not counted.
pub open spec fn activity(frame: MatrixView, r: int, c: int, w: int) -> int {
    block_count(
        frame.data,
        frame.columns as int,
        window_start(r, w),
        window_end(r, w, frame.rows as int),
        window_start(c, w),
        window_end(c, w, frame.columns as int),
    ) - lit(frame.data, frame.columns as int, r, c)
}

/// The colour of a suppressed pixel.
pub open spec fn baseline_color() -> Seq<u8> {
    seq![0u8, 0u8, 0u8]
}

/// The colour of each bucket, as red, green and blue: blue, green, yellow and
/// red from the lowest bucket to the overflow bucket.
pub open spec fn bucket_color(bucket: int) -> Seq<u8> {
    if bucket == 0 {
        seq![0u8, 0u8, 255u8]
    } else if bucket == 1 {
        seq![0u8, 255u8, 0u8]
    } else if bucket == 2 {
        seq![255u8, 255u8, 0u8]
    } else {
        seq![255u8, 0u8, 0u8]
    }
}

/// The colour of the output pixel at `(r, c)`: the baseline where the
/// activity is under the noise floor `neighbours`, else the colour of the
/// activity's bucket.
pub open spec fn pixel_color(
    frame: MatrixView,
    r: int,
    c: int,
    neighbours: int,
    w: int,
    bounds: PyColorBounds,
) -> Seq<u8> {
    let a = activity(frame, r, c, w);
    if a < neighbours {
        baseline_color()
    } else {
        bucket_color(bounds.classify_spec(a))
    }
}

/// `map` is the vibration map of `frame`: same rows and columns, three
/// floating-point channels, every pixel coloured by `pixel_color`.
pub open spec fn is_vibration_map(
    map: MatrixView,
    frame: MatrixView,
    neighbours: int,
    w: int,
    bounds: PyColorBounds,
) -> bool {
    &&& map.rows == frame.rows
    &&& map.columns == frame.columns
    &&& map.channels == COLOR_CHANNELS
    &&& map.element_type == ElementType::F64
    &&& map.well_formed()
    &&& forall|r: int, c: int, k: int|
        0 <= r < frame.rows && 0 <= c < frame.columns && 0 <= k < 3 ==> #[trigger] map.at(r, c, k)
            == pixel_color(frame, r, c, neighbours, w, bounds)[k]
}

/// `sums` holds, for every column, the number of lit pixels of that column
/// in the rows `r_lo..r_hi`.
spec fn sums_cover(
    sums: Seq<usize>,
    data: Seq<u8>,
    columns: int,
    r_lo: int,
    r_hi: int,
) -> bool {
    &&& sums.len() == columns
    &&& forall|c: int|
        0 <= c < columns ==> sums[c] == #[trigger] column_count(data, columns, c, r_lo, r_hi)
}

proof fn lemma_cell_below(columns: int, r1: int, c: int, r2: int)
    by (nonlinear_arith)
    requires
        0 <= r1 < r2,
        0 <= c <= columns,
    ensures
        0 <= r1 * columns,
        r1 * columns + c <= r2 * columns,
        (r1 + 1) * columns == r1 * columns + columns,
{
}

proof fn lemma_column_count_bound(data: Seq<u8>, columns: int, c: int, r_lo: int, r_hi: int)
    requires
        r_lo <= r_hi,
    ensures
        0 <= column_count(data, columns, c, r_lo, r_hi) <= r_hi - r_lo,
    decreases r_hi - r_lo,
{
    if r_hi > r_lo {
        lemma_column_count_bound(data, columns, c, r_lo, r_hi - 1);
    }
}

proof fn lemma_column_count_drop_first(data: Seq<u8>, columns: int, c: int, r_lo: int, r_hi: int)
    requires
        r_lo < r_hi,
    ensures
        column_count(data, columns, c, r_lo, r_hi) == lit(data, columns, r_lo, c) + column_count(
            data,
            columns,
            c,
            r_lo + 1,
            r_hi,
        ),
    decreases r_hi - r_lo,
{
    if r_hi > r_lo + 1 {
        lemma_column_count_drop_first(data, columns, c, r_lo, r_hi - 1);
    } else {
        assert(column_count(data, columns, c, r_lo, r_hi - 1) == 0);
        assert(column_count(data, columns, c, r_lo + 1, r_hi) == 0);
    }
}

proof fn lemma_column_count_holds(
    data: Seq<u8>,
    columns: int,
    c: int,
    r_lo: int,
    r_hi: int,
    r: int,
)
    requires
        r_lo <= r < r_hi,
    ensures
        lit(data, columns, r, c) <= column_count(data, columns, c, r_lo, r_hi),
    decreases r_hi - r_lo,
{
    if r < r_hi - 1 {
        lemma_column_count_holds(data, columns, c, r_lo, r_hi - 1, r);
    } else {
        lemma_column_count_bound(data, columns, c, r_lo, r_hi - 1);
    }
}

proof fn lemma_block_count_bound(
    data: Seq<u8>,
    columns: int,
    r_lo: int,
    r_hi: int,
    c_lo: int,
    c_hi: int,
)
    requires
        r_lo <= r_hi,
        c_lo <= c_hi,
    ensures
        0 <= block_count(data, columns, r_lo, r_hi, c_lo, c_hi) <= (c_hi - c_lo) * (r_hi - r_lo),
    decreases c_hi - c_lo,
{
    if c_hi > c_lo {
        lemma_block_count_bound(data, columns, r_lo, r_hi, c_lo, c_hi - 1);
        lemma_column_count_bound(data, columns, c_hi - 1, r_lo, r_hi);
        assert((c_hi - c_lo) * (r_hi - r_lo) == (c_hi - 1 - c_lo) * (r_hi - r_lo) + (r_hi - r_lo))
            by (nonlinear_arith);
    } else {
        assert((c_hi - c_lo) * (r_hi - r_lo) == 0) by (nonlinear_arith)
            requires
                c_hi - c_lo == 0,
        ;
    }
}

proof fn lemma_block_count_drop_first(
    data: Seq<u8>,
    columns: int,
    r_lo: int,
    r_hi: int,
    c_lo: int,
    c_hi: int,
)
    requires
        c_lo < c_hi,
    ensures
        block_count(data, columns, r_lo, r_hi, c_lo, c_hi) == column_count(
            data,
            columns,
            c_lo,
            r_lo,
            r_hi,
        ) + block_count(data, columns, r_lo, r_hi, c_lo + 1, c_hi),
    decreases c_hi - c_lo,
{
    if c_hi > c_lo + 1 {
        lemma_block_count_drop_first(data, columns, r_lo, r_hi, c_lo, c_hi - 1);
    } else {
        assert(block_count(data, columns, r_lo, r_hi, c_lo, c_hi - 1) == 0);
        assert(block_count(data, columns, r_lo, r_hi, c_lo + 1, c_hi) == 0);
    }
}

proof fn lemma_block_count_holds(
    data: Seq<u8>,
    columns: int,
    r_lo: int,
    r_hi: int,
    c_lo: int,
    c_hi: int,
    r: int,
    c: int,
)
    requires
        r_lo <= r < r_hi,
        c_lo <= c < c_hi,
    ensures
        lit(data, columns, r, c) <= block_count(data, columns, r_lo, r_hi, c_lo, c_hi),
    decreases c_hi - c_lo,
{
    if c < c_hi - 1 {
        lemma_block_count_holds(data, columns, r_lo, r_hi, c_lo, c_hi - 1, r, c);
        lemma_column_count_bound(data, columns, c_hi - 1, r_lo, r_hi);
    } else {
        lemma_block_count_bound(data, columns, r_lo, r_hi, c_lo, c_hi - 1);
        lemma_column_count_holds(data, columns, c, r_lo, r_hi, r);
    }
}

/// A block inside an image of `rows * columns` pixels holds no more lit
/// pixels than the image has pixels.
proof fn lemma_block_count_fits(
    data: Seq<u8>,
    rows: int,
    columns: int,
    r_lo: int,
    r_hi: int,
    c_lo: int,
    c_hi: int,
)
    requires
        0 <= r_lo <= r_hi <= rows,
        0 <= c_lo <= c_hi <= columns,
    ensures
        0 <= block_count(data, columns, r_lo, r_hi, c_lo, c_hi) <= rows * columns,
{
    lemma_block_count_bound(data, columns, r_lo, r_hi, c_lo, c_hi);
    assert((c_hi - c_lo) * (r_hi - r_lo) <= rows * columns) by (nonlinear_arith)
        requires
            0 <= r_hi - r_lo <= rows,
            0 <= c_hi - c_lo <= columns,
    ;
}

proof fn lemma_rows_fit(rows: int, columns: int, r: int)
    by (nonlinear_arith)
    requires
        0 <= r < rows,
        0 <= columns,
    ensures
        r * columns * 3 + 3 * columns <= rows * columns * 3,
        (r + 1) * columns * 3 == r * columns * 3 + 3 * columns,
{
}

proof fn lemma_dark_column(data: Seq<u8>, rows: int, columns: int, c: int, r_lo: int, r_hi: int)
    requires
        data.len() == rows * columns,
        0 <= r_lo <= r_hi <= rows,
        0 <= c < columns,
        forall|i: int| 0 <= i < data.len() ==> data[i] == 0,
    ensures
        column_count(data, columns, c, r_lo, r_hi) == 0,
    decreases r_hi - r_lo,
{
    if r_hi > r_lo {
        lemma_dark_column(data, rows, columns, c, r_lo, r_hi - 1);
        lemma_cell_below(columns, r_hi - 1, c + 1, rows);
    }
}

proof fn lemma_dark_block(
    data: Seq<u8>,
    rows: int,
    columns: int,
    r_lo: int,
    r_hi: int,
    c_lo: int,
    c_hi: int,
)
    requires
        data.len() == rows * columns,
        0 <= r_lo <= r_hi <= rows,
        0 <= c_lo <= c_hi <= columns,
        forall|i: int| 0 <= i < data.len() ==> data[i] == 0,
    ensures
        block_count(data, columns, r_lo, r_hi, c_lo, c_hi) == 0,
    decreases c_hi - c_lo,
{
    if c_hi > c_lo {
        lemma_dark_block(data, rows, columns, r_lo, r_hi, c_lo, c_hi - 1);
        lemma_dark_column(data, rows, columns, c_hi - 1, r_lo, r_hi);
    }
}

/// The activity of a pixel of the image is never negative.
pub proof fn lemma_activity_is_a_count(frame: MatrixView, r: int, c: int, w: int)
    requires
        0 <= r < frame.rows,
        0 <= c < frame.columns,
        w >= 0,
    ensures
        activity(frame, r, c, w) >= 0,
{
    lemma_block_count_holds(
        frame.data,
        frame.columns as int,
        window_start(r, w),
        window_end(r, w, frame.rows as int),
        window_start(c, w),
        window_end(c, w, frame.columns as int),
        r,
        c,
    );
}

/// With a noise floor of zero no pixel of a vibration map is suppressed:
/// every pixel has the colour of its activity's bucket, which is never the
/// baseline colour.
pub proof fn lemma_zero_floor_suppresses_nothing(
    map: MatrixView,
    frame: MatrixView,
    w: int,
    bounds: PyColorBounds,
    r: int,
    c: int,
)
    requires
        is_vibration_map(map, frame, 0, w, bounds),
        w >= 0,
        0 <= r < frame.rows,
        0 <= c < frame.columns,
    ensures
        forall|k: int|
            0 <= k < 3 ==> map.at(r, c, k) == bucket_color(
                bounds.classify_spec(activity(frame, r, c, w)),
            )[k],
        map.at(r, c, 0) != baseline_color()[0] || map.at(r, c, 1) != baseline_color()[1] || map.at(
            r,
            c,
            2,
        ) != baseline_color()[2],
{
    lemma_activity_is_a_count(frame, r, c, w);
    let color = bucket_color(bounds.classify_spec(activity(frame, r, c, w)));
    assert(pixel_color(frame, r, c, 0, w, bounds) == color);
    assert(map.at(r, c, 0) == color[0]);
    assert(map.at(r, c, 1) == color[1]);
    assert(map.at(r, c, 2) == color[2]);
}

/// The vibration map of an all-zero frame is the baseline colour everywhere,
/// whatever the bounds and the window, once the noise floor is positive.
pub proof fn lemma_dark_frame_gives_baseline(
    map: MatrixView,
    frame: MatrixView,
    neighbours: int,
    w: int,
    bounds: PyColorBounds,
    r: int,
    c: int,
)
    requires
        is_vibration_map(map, frame, neighbours, w, bounds),
        frame.well_formed(),
        frame.channels == 1,
        forall|i: int| 0 <= i < frame.data.len() ==> frame.data[i] == 0,
        neighbours > 0,
        w >= 0,
        0 <= r < frame.rows,
        0 <= c < frame.columns,
    ensures
        activity(frame, r, c, w) == 0,
        forall|k: int| 0 <= k < 3 ==> map.at(r, c, k) == 0,
{
    assert(frame.data.len() == frame.rows * frame.columns) by (nonlinear_arith)
        requires
            frame.data.len() == frame.rows * frame.columns * 1,
    ;
    lemma_dark_block(
        frame.data,
        frame.rows as int,
        frame.columns as int,
        window_start(r, w),
        window_end(r, w, frame.rows as int),
        window_start(c, w),
        window_end(c, w, frame.columns as int),
    );
    lemma_cell_below(frame.columns as int, r, c + 1, frame.rows as int);
    assert(pixel_color(frame, r, c, neighbours, w, bounds) == baseline_color());
    assert(map.at(r, c, 0) == baseline_color()[0]);
    assert(map.at(r, c, 1) == baseline_color()[1]);
    assert(map.at(r, c, 2) == baseline_color()[2]);
}

/// The colour of a bucket.
fn palette(bucket: usize) -> (color: (u8, u8, u8))
    requires
        bucket < 4,
    ensures
        color.0 == bucket_color(bucket as int)[0],
        color.1 == bucket_color(bucket as int)[1],
        color.2 == bucket_color(bucket as int)[2],
{
    if bucket == 0 {
        (0, 0, 255)
    } else if bucket == 1 {
        (0, 255, 0)
    } else if bucket == 2 {
        (255, 255, 0)
    } else {
        (255, 0, 0)
    }
}

/// Takes row `row` into column sums that cover the rows `lo..row`.
fn add_row(
    sums: Vec<usize>,
    data: &Vec<u8>,
    rows: usize,
    columns: usize,
    lo: usize,
    row: usize,
) -> (grown: Vec<usize>)
    requires
        data@.len() == rows * columns <= usize::MAX,
        lo <= row < rows,
        sums_cover(sums@, data@, columns as int, lo as int, row as int),
    ensures
        sums_cover(grown@, data@, columns as int, lo as int, row + 1),
{
    proof {
        lemma_cell_below(columns as int, row as int, columns as int, rows as int);
    }
    let base = row * columns;
    let mut sums = sums;
    let mut c: usize = 0;
    while c < columns
        invariant
            c <= columns,
            lo <= row < rows,
            sums@.len() == columns,
            base == row * columns,
            base + columns <= data@.len() <= usize::MAX,
            forall|j: int|
                0 <= j < c ==> sums@[j] == #[trigger] column_count(data@, columns as int, j, lo as int, row + 1),
            forall|j: int|
                c <= j < columns ==> sums@[j] == #[trigger] column_count(data@, columns as int, j, lo as int, row as int),
        decreases columns - c,
    {
        proof {
            lemma_column_count_bound(data@, columns as int, c as int, lo as int, row as int);
            assert(sums@[c as int] == column_count(data@, columns as int, c as int, lo as int, row as int));
        }
        if data[base + c] != 0 {
            let s = sums[c];
            sums.set(c, s + 1);
        }
        c += 1;
    }
    sums
}

/// Drops row `lo` from column sums that cover the rows `lo..hi`.
fn remove_row(
    sums: Vec<usize>,
    data: &Vec<u8>,
    rows: usize,
    columns: usize,
    lo: usize,
    hi: usize,
) -> (shrunk: Vec<usize>)
    requires
        data@.len() == rows * columns <= usize::MAX,
        lo < hi <= rows,
        sums_cover(sums@, data@, columns as int, lo as int, hi as int),
    ensures
        sums_cover(shrunk@, data@, columns as int, lo + 1, hi as int),
{
    proof {
        lemma_cell_below(columns as int, lo as int, columns as int, rows as int);
    }
    let base = lo * columns;
    let mut sums = sums;
    let mut c: usize = 0;
    while c < columns
        invariant
            c <= columns,
            lo < hi,
            sums@.len() == columns,
            base == lo * columns,
            base + columns <= data@.len() <= usize::MAX,
            forall|j: int|
                0 <= j < c ==> sums@[j] == #[trigger] column_count(data@, columns as int, j, lo + 1, hi as int),
            forall|j: int|
                c <= j < columns ==> sums@[j] == #[trigger] column_count(data@, columns as int, j, lo as int, hi as int),
        decreases columns - c,
    {
        proof {
            lemma_column_count_drop_first(data@, columns as int, c as int, lo as int, hi as int);
            lemma_column_count_bound(data@, columns as int, c as int, lo + 1, hi as int);
            assert(sums@[c as int] == column_count(data@, columns as int, c as int, lo as int, hi as int));
        }
        if data[base + c] != 0 {
            let s = sums[c];
            sums.set(c, s - 1);
        }
        c += 1;
    }
    sums
}

/// Appends the colours of row `r` to `out`. A window slides along the column
/// sums of the rows `r_lo..r_hi`, so that each pixel costs a constant number
/// of steps whatever the radius.
fn append_row(
    out: Vec<u8>,
    frame: Ghost<MatrixView>,
    data: &Vec<u8>,
    sums: &Vec<usize>,
    r: usize,
    r_lo: usize,
    r_hi: usize,
    w: usize,
    floor: usize,
    bounds: &PyColorBounds,
) -> (extended: Vec<u8>)
    requires
        frame@.data == data@,
        data@.len() == frame@.rows * frame@.columns <= usize::MAX,
        r < frame@.rows,
        r_lo == window_start(r as int, w as int),
        r_hi == window_end(r as int, w as int, frame@.rows as int),
        sums_cover(sums@, data@, frame@.columns as int, r_lo as int, r_hi as int),
        out@.len() + 3 * frame@.columns <= usize::MAX,
    ensures
        extended@.len() == out@.len() + 3 * frame@.columns,
        forall|i: int| 0 <= i < out@.len() ==> extended@[i] == out@[i],
        forall|c: int, k: int|
            0 <= c < frame@.columns && 0 <= k < 3 ==> extended@[out@.len() + 3 * c + k]
                == #[trigger] pixel_color(frame@, r as int, c, floor as int, w as int, *bounds)[k],
{
    let ghost rows = frame@.rows as int;
    let ghost start = out@;
    let columns = sums.len();
    proof {
        lemma_cell_below(columns as int, r as int, columns as int, rows);
    }
    let base = r * columns;
    let mut out = out;
    let mut c_lo: usize = 0;
    let mut c_hi: usize = 0;
    let mut window: usize = 0;
    let mut c: usize = 0;
    while c < columns
        invariant
            c <= columns,
            c_lo <= c_hi <= columns,
            c_lo <= window_start(c as int, w as int),
            c_hi <= window_end(c as int, w as int, columns as int),
            frame@.data == data@,
            frame@.rows == rows,
            frame@.columns == columns,
            data@.len() == rows * columns <= usize::MAX,
            r < rows,
            r_lo == window_start(r as int, w as int),
            r_hi == window_end(r as int, w as int, rows),
            base == r * columns,
            base + columns <= data@.len(),
            sums_cover(sums@, data@, columns as int, r_lo as int, r_hi as int),
            window == block_count(data@, columns as int, r_lo as int, r_hi as int, c_lo as int, c_hi as int),
            start.len() + 3 * columns <= usize::MAX,
            out@.len() == start.len() + 3 * c,
            forall|i: int| 0 <= i < start.len() ==> out@[i] == start[i],
            forall|j: int, k: int|
                0 <= j < c && 0 <= k < 3 ==> out@[start.len() + 3 * j + k]
                    == #[trigger] pixel_color(frame@, r as int, j, floor as int, w as int, *bounds)[k],
        decreases columns - c,
    {
        let target_hi = if columns - c - 1 <= w {
            columns
        } else {
            c + w + 1
        };
        while c_hi < target_hi
            invariant
                c_lo <= c_hi <= target_hi <= columns,
                r_lo <= r_hi <= rows,
                rows * columns <= usize::MAX,
                sums_cover(sums@, data@, columns as int, r_lo as int, r_hi as int),
                window == block_count(data@, columns as int, r_lo as int, r_hi as int, c_lo as int, c_hi as int),
            decreases target_hi - c_hi,
        {
            proof {
                lemma_block_count_fits(data@, rows, columns as int, r_lo as int, r_hi as int, c_lo as int, c_hi + 1);
                assert(sums@[c_hi as int] == column_count(data@, columns as int, c_hi as int, r_lo as int, r_hi as int));
            }
            window = window + sums[c_hi];
            c_hi += 1;
        }
        let target_lo = if c < w {
            0
        } else {
            c - w
        };
        while c_lo < target_lo
            invariant
                c_lo <= target_lo < c_hi <= columns,
                r_lo <= r_hi <= rows,
                sums_cover(sums@, data@, columns as int, r_lo as int, r_hi as int),
                window == block_count(data@, columns as int, r_lo as int, r_hi as int, c_lo as int, c_hi as int),
            decreases target_lo - c_lo,
        {
            proof {
                lemma_block_count_drop_first(data@, columns as int, r_lo as int, r_hi as int, c_lo as int, c_hi as int);
                lemma_block_count_bound(data@, columns as int, r_lo as int, r_hi as int, c_lo + 1, c_hi as int);
                assert(sums@[c_lo as int] == column_count(data@, columns as int, c_lo as int, r_lo as int, r_hi as int));
            }
            window = window - sums[c_lo];
            c_lo += 1;
        }
        proof {
            lemma_block_count_holds(data@, columns as int, r_lo as int, r_hi as int, c_lo as int, c_hi as int, r as int, c as int);
        }
        let centre: usize = if data[base + c] != 0 {
            1
        } else {
            0
        };
        let count = window - centre;
        let color = if count < floor {
            (0u8, 0u8, 0u8)
        } else {
            let capped: u32 = if count > 0xffff_ffff {
                0xffff_ffff
            } else {
                count as u32
            };
            proof {
                if count > 0xffff_ffff {
                    bounds.lemma_large_count_overflows(count as int);
                    bounds.lemma_large_count_overflows(capped as int);
                }
            }
            palette(bounds.classify(capped))
        };
        out.push(color.0);
        out.push(color.1);
        out.push(color.2);
        c += 1;
    }
    out
}

/// Computes the vibration map of a single-channel frame.
///
/// Every pixel is given its activity: the number of nonzero pixels in the
/// square window of radius `window_size` around it, clipped to the image and
/// without the pixel itself. A pixel whose activity is below `neighbours` is
/// written in the baseline colour; any other in the colour of the bucket that
/// `bounds` gives its activity.
///
/// Fails with `InvalidParameter` where `neighbours` or `window_size` is
/// negative, else with `ChannelMismatch` where the frame is not
/// single-channel.
pub fn compute_vibration(
    frame: &Matrix,
    neighbours: i32,
    window_size: i32,
    bounds: &PyColorBounds,
) -> (out: Result<Matrix, ProcessError>)
    requires
        neighbours >= 0 && window_size >= 0 && frame@.channels == 1 ==> frame@.rows
            * frame@.columns * 3 <= usize::MAX,
    ensures
        neighbours < 0 || window_size < 0 ==> out == Err::<Matrix, ProcessError>(
            ProcessError::InvalidParameter,
        ),
        neighbours >= 0 && window_size >= 0 && frame@.channels != 1 ==> out == Err::<
            Matrix,
            ProcessError,
        >(ProcessError::ChannelMismatch),
        neighbours >= 0 && window_size >= 0 && frame@.channels == 1 ==> out.is_ok()
            && is_vibration_map(
            out.unwrap()@,
            frame@,
            neighbours as int,
            window_size as int,
            *bounds,
        ),
{
    if neighbours < 0 || window_size < 0 {
        return Err(ProcessError::InvalidParameter);
    }
    if frame.channels() != 1 {
        return Err(ProcessError::ChannelMismatch);
    }
    let rows = frame.rows();
    let columns = frame.columns();
    let data = frame.to_buffer();
    let length = data.len();
    let w = window_size as usize;
    let floor = neighbours as usize;
    assert(length == rows * columns) by (nonlinear_arith)
        requires
            length == rows * columns * 1,
    ;
    let mut sums: Vec<usize> = Vec::new();
    while sums.len() < columns
        invariant
            sums@.len() <= columns,
            forall|j: int| 0 <= j < sums@.len() ==> sums@[j] == 0,
        decreases columns - sums@.len(),
    {
        sums.push(0);
    }
    let mut out: Vec<u8> = Vec::new();
    let mut r_lo: usize = 0;
    let mut r_hi: usize = 0;
    let mut r: usize = 0;
    while r < rows
        invariant
            r <= rows,
            floor == neighbours,
            w == window_size,
            r_lo <= r_hi <= rows,
            r_lo <= window_start(r as int, w as int),
            r_hi <= window_end(r as int, w as int, rows as int),
            frame@.data == data@,
            frame@.rows == rows,
            frame@.columns == columns,
            data@.len() == rows * columns <= usize::MAX,
            rows * columns * 3 <= usize::MAX,
            sums_cover(sums@, data@, columns as int, r_lo as int, r_hi as int),
            out@.len() == r * columns * 3,
            forall|i: int, j: int, k: int|
                0 <= i < r && 0 <= j < columns && 0 <= k < 3 ==> out@[(i * columns + j) * 3 + k]
                    == #[trigger] pixel_color(frame@, i, j, neighbours as int, window_size as int, *bounds)[k],
        decreases rows - r,
    {
        let target_hi = if rows - r - 1 <= w {
            rows
        } else {
            r + w + 1
        };
        while r_hi < target_hi
            invariant
                r_lo <= r_hi <= target_hi <= rows,
                data@.len() == rows * columns <= usize::MAX,
                sums_cover(sums@, data@, columns as int, r_lo as int, r_hi as int),
            decreases target_hi - r_hi,
        {
            sums = add_row(sums, data, rows, columns, r_lo, r_hi);
            r_hi += 1;
        }
        let target_lo = if r < w {
            0
        } else {
            r - w
        };
        while r_lo < target_lo
            invariant
                r_lo <= target_lo < r_hi <= rows,
                data@.len() == rows * columns <= usize::MAX,
                sums_cover(sums@, data@, columns as int, r_lo as int, r_hi as int),
            decreases target_lo - r_lo,
        {
            sums = remove_row(sums, data, rows, columns, r_lo, r_hi);
            r_lo += 1;
        }
        let ghost before = out@;
        proof {
            lemma_rows_fit(rows as int, columns as int, r as int);
        }
        out = append_row(out, Ghost(frame@), data, &sums, r, r_lo, r_hi, w, floor, bounds);
        proof {
            assert forall|i: int, j: int, k: int|
                0 <= i < r + 1 && 0 <= j < columns && 0 <= k < 3 implies out@[(i * columns + j) * 3 + k]
                == #[trigger] pixel_color(frame@, i, j, neighbours as int, window_size as int, *bounds)[k] by {
                if i < r {
                    lemma_cell_below(columns as int, i, j + 1, r as int);
                    assert(out@[(i * columns + j) * 3 + k] == before[(i * columns + j) * 3 + k]);
                } else {
                    assert((i * columns + j) * 3 + k == before.len() + 3 * j + k);
                }
            }
        }
        r += 1;
    }
    let made = Matrix::assemble(rows, columns, COLOR_CHANNELS, ElementType::F64, out);
    Ok(made)
}

} // verus!
