//! Grid sizing and cell placement for a near-square sheet.
use vstd::prelude::*;

verus! {

/// The smallest `c` with `c * c >= n`, i.e. the ceiling of the square root of `n`.
pub open spec fn is_ceil_sqrt(n: int, c: int) -> bool {
    &&& c >= 0
    &&& c * c >= n
    &&& (c == 0 || (c - 1) * (c - 1) < n)
}

/// The ceiling of the square root of `n`, found by searching upwards from `c`.
pub open spec fn ceil_sqrt_from(n: nat, c: nat) -> nat
    decreases n - c,
{
    if c * c >= n || c >= n {
        c
    } else {
        ceil_sqrt_from(n, c + 1)
    }
}

/// The ceiling of the square root of `n`.
pub open spec fn ceil_sqrt(n: nat) -> nat {
    ceil_sqrt_from(n, 0)
}

proof fn lemma_ceil_sqrt_from(n: nat, c: nat)
    requires
        c == 0 || (c - 1) * (c - 1) < n,
    ensures
        is_ceil_sqrt(n as int, ceil_sqrt_from(n, c) as int),
    decreases n - c,
{
    if c * c >= n {
    } else if c >= n {
        assert(c * c >= c) by (nonlinear_arith)
            requires
                c >= 1,
        ;
    } else {
        lemma_ceil_sqrt_from(n, c + 1);
    }
}

/// `ceil_sqrt(n)` is the smallest `c` with `c * c >= n`.
pub proof fn lemma_ceil_sqrt(n: nat)
    ensures
        is_ceil_sqrt(n as int, ceil_sqrt(n) as int),
{
    lemma_ceil_sqrt_from(n, 0);
}

/// `ceil(n / d)` for a positive divisor.
pub open spec fn ceil_div(n: int, d: int) -> int {
    (n + d - 1) / d
}

/// Column of the `i`-th cell in a grid with `columns` columns.
pub open spec fn cell_col(i: int, columns: int) -> int {
    i % columns
}

/// Row of the `i`-th cell in a grid with `columns` columns.
pub open spec fn cell_row(i: int, columns: int) -> int {
    i / columns
}

/// Number of columns for `n` cells: `ceil(sqrt(n))`.
pub fn grid_columns(n: u32) -> (c: u32)
    ensures
        c == ceil_sqrt(n as nat),
        is_ceil_sqrt(n as int, c as int),
        c <= 65536,
{
    let mut c: u64 = 0;
    while c * c < n as u64
        invariant
            c <= 65536,
            c * c <= 0x1_0000_0000,
            c == 0 || (c - 1) * (c - 1) < n,
            ceil_sqrt_from(n as nat, c as nat) == ceil_sqrt(n as nat),
        decreases 65536 - c,
    {
        assert(c < 65536) by (nonlinear_arith)
            requires
                c * c < n as u64,
                n <= u32::MAX,
                c <= 65536,
        ;
        assert(c < n) by (nonlinear_arith)
            requires
                c * c < n,
        ;
        c = c + 1;
        assert(c * c <= 0x1_0000_0000) by (nonlinear_arith)
            requires
                c <= 65536,
        ;
    }
    c as u32
}

/// Number of rows for `n` cells laid out over `columns` columns: `ceil(n / columns)`.
pub fn grid_rows(n: u32, columns: u32) -> (r: u32)
    requires
        columns > 0,
    ensures
        r == ceil_div(n as int, columns as int),
{
    let q: u32 = n / columns;
    let m: u32 = n % columns;
    proof {
        lemma_ceil_div_split(n as int, columns as int);
    }
    if m == 0 {
        q
    } else {
        q + 1
    }
}

proof fn lemma_ceil_div_split(n: int, d: int)
    requires
        n >= 0,
        d > 0,
    ensures
        ceil_div(n, d) == if n % d == 0 { n / d } else { n / d + 1 },
        n / d <= n,
        n % d != 0 ==> n / d < n,
{
    let q = n / d;
    let r = n % d;
    vstd::arithmetic::div_mod::lemma_fundamental_div_mod(n, d);
    assert(n == d * q + r);
    assert(0 <= r < d);
    assert((r == 0 ==> n + d - 1 == q * d + (d - 1)) && n + d - 1 == (q + 1) * d + (r - 1)) by (nonlinear_arith)
        requires
            n == d * q + r,
    ;
    if r != 0 {
        assert(q < n) by (nonlinear_arith)
            requires
                n == d * q + r,
                r > 0,
                d > 0,
                q >= 0,
        ;
    }
    if r == 0 {
        vstd::arithmetic::div_mod::lemma_fundamental_div_mod_converse(n + d - 1, d, q, d - 1);
    } else {
        vstd::arithmetic::div_mod::lemma_fundamental_div_mod_converse(n + d - 1, d, q + 1, r - 1);
    }
    vstd::arithmetic::div_mod::lemma_div_is_ordered_by_denominator(n, 1, d);
}

/// For `n` cells the grid of `ceil(sqrt(n))` columns and `ceil(n / columns)` rows
/// holds every cell, has no more rows than columns, and leaves fewer than one
/// full row of trailing cells empty.
pub proof fn lemma_grid_covers(n: int, columns: int, rows: int)
    requires
        n > 0,
        is_ceil_sqrt(n, columns),
        rows == ceil_div(n, columns),
    ensures
        columns >= 1,
        columns * rows >= n,
        columns * rows < n + columns,
        rows <= columns,
{
    assert(columns >= 1) by (nonlinear_arith)
        requires
            columns >= 0,
            columns * columns >= n,
            n > 0,
    ;
    let q = (n + columns - 1) / columns;
    let r = (n + columns - 1) % columns;
    vstd::arithmetic::div_mod::lemma_fundamental_div_mod(n + columns - 1, columns);
    assert(n + columns - 1 == columns * q + r);
    assert(0 <= r < columns);
    assert(columns * rows >= n) by (nonlinear_arith)
        requires
            n + columns - 1 == columns * q + r,
            r < columns,
            rows == q,
    ;
    assert(columns * rows < n + columns) by (nonlinear_arith)
        requires
            n + columns - 1 == columns * q + r,
            r >= 0,
            rows == q,
    ;
    assert(rows <= columns) by (nonlinear_arith)
        requires
            columns * rows < n + columns,
            columns * columns >= n,
            columns >= 1,
    ;
}

/// Two different cells of one grid never share a pixel: with cells of
/// `width` by `height` pixels, the rectangles of cells `i` and `j` are disjoint.
pub proof fn lemma_cells_disjoint(i: int, j: int, columns: int, width: int, height: int)
    requires
        0 <= i,
        0 <= j,
        i != j,
        columns > 0,
        width > 0,
        height > 0,
    ensures
        cell_col(i, columns) * width + width <= cell_col(j, columns) * width
            || cell_col(j, columns) * width + width <= cell_col(i, columns) * width
            || cell_row(i, columns) * height + height <= cell_row(j, columns) * height
            || cell_row(j, columns) * height + height <= cell_row(i, columns) * height,
{
    let ci = i % columns;
    let cj = j % columns;
    let ri = i / columns;
    let rj = j / columns;
    vstd::arithmetic::div_mod::lemma_fundamental_div_mod(i, columns);
    vstd::arithmetic::div_mod::lemma_fundamental_div_mod(j, columns);
    if ci == cj {
        assert(ri != rj);
        if ri < rj {
            assert(ri * height + height <= rj * height) by (nonlinear_arith)
                requires
                    ri + 1 <= rj,
                    height > 0,
            ;
        } else {
            assert(rj * height + height <= ri * height) by (nonlinear_arith)
                requires
                    rj + 1 <= ri,
                    height > 0,
            ;
        }
    } else if ci < cj {
        assert(ci * width + width <= cj * width) by (nonlinear_arith)
            requires
                ci + 1 <= cj,
                width > 0,
        ;
    } else {
        assert(cj * width + width <= ci * width) by (nonlinear_arith)
            requires
                cj + 1 <= ci,
                width > 0,
        ;
    }
}

} // verus!
