use vstd::prelude::*;

verus! {

/// Width of the canvas, in pixels.
pub const WIDTH: usize = 500;

/// Height of the canvas, in pixels.
pub const HEIGHT: usize = 500;

/// Number of pixels on the canvas.
pub const CELLS: usize = WIDTH * HEIGHT;

/// Column of pixel `p` in the row-major layout.
pub open spec fn col_of(p: int) -> int {
    p % (WIDTH as int)
}

/// Row of pixel `p` in the row-major layout.
pub open spec fn row_of(p: int) -> int {
    p / (WIDTH as int)
}

/// Pixel `p` is on the canvas and inside the square `[x - r, x + r) x [y - r, y + r)`
/// of a stamp centred on column `x`, row `y`.
pub open spec fn in_stamp(x: int, y: int, r: int, p: int) -> bool {
    &&& 0 <= p < CELLS
    &&& x - r <= col_of(p) < x + r
    &&& y - r <= row_of(p) < y + r
}

/// Row-major index of the pixel at column `col`, row `row`.
pub proof fn lemma_index_parts(row: int, col: int)
    requires
        0 <= row,
        0 <= col < WIDTH,
    ensures
        row_of(row * WIDTH + col) == row,
        col_of(row * WIDTH + col) == col,
{
    vstd::arithmetic::div_mod::lemma_fundamental_div_mod_converse(
        row * WIDTH + col,
        WIDTH as int,
        row,
        col,
    );
}

/// Coordinate `v` lies in `[0, n)` and within `r` of `c`, on the side of a
/// half-open stamp: `c - r <= v < c + r`.
pub open spec fn covers(c: int, r: int, n: int, v: int) -> bool {
    0 <= v < n && c - r <= v < c + r
}

/// The coordinates that `covers` admits, as the half-open range `[lo, hi)`.
pub fn span(c: i32, r: i32, n: usize) -> (res: (usize, usize))
    requires
        n <= i32::MAX,
    ensures
        res.0 <= res.1 <= n,
        forall|v: int|
            res.0 <= v < res.1 <==> #[trigger] covers(c as int, r as int, n as int, v),
{
    let lo: i64 = c as i64 - r as i64;
    let hi: i64 = c as i64 + r as i64;
    let lo: i64 = if lo < 0 { 0 } else { lo };
    let hi: i64 = if hi > n as i64 { n as i64 } else { hi };
    if hi <= lo {
        (0, 0)
    } else {
        (lo as usize, hi as usize)
    }
}

} // verus!
