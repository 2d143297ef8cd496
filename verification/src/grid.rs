//! Grid layout of the interactive multiplexer: 1–3 panes stack in one
//! column, more use two columns; the pane rectangles tile the drawing area
//! exactly, and a lone pane in the last row spans the full width.

use vstd::prelude::*;

use vstd::arithmetic::div_mod::lemma_fundamental_div_mod;
use vstd::arithmetic::mul::lemma_mul_inequality;

verus! {

/// A rectangle on the terminal, in cells.
#[derive(Debug, Clone, Copy, PartialEq, Eq, Structural)]
pub struct Rect {
    pub x: u16,
    pub y: u16,
    pub width: u16,
    pub height: u16,
}

/// Columns of the pane grid for `total` panes.
pub open spec fn spec_cols(total: int) -> int {
    if total <= 3 {
        1
    } else {
        2
    }
}

/// Rows of the pane grid for `total` panes.
pub open spec fn spec_rows(total: int) -> int {
    if total <= 3 {
        total
    } else {
        (total + 1) / 2
    }
}

/// The last pane sits alone in an otherwise full row.
pub open spec fn spec_last_alone(index: int, total: int) -> bool {
    index == total - 1 && total % spec_cols(total) != 0
}

/// The length of strip `k` when a length `len` is cut into `m` strips:
/// every strip gets `len / m`, the last strip also the remainder.
pub open spec fn strip_len(len: int, m: int, k: int) -> int {
    if k == m - 1 {
        len - (m - 1) * (len / m)
    } else {
        len / m
    }
}

/// Offset `p` lies in strip `k` of a length `len` cut into `m` strips.
pub open spec fn strip_covers(len: int, m: int, k: int, p: int) -> bool {
    k * (len / m) <= p < k * (len / m) + strip_len(len, m, k)
}

/// The left edge of the pane at `index`, relative to the area.
pub open spec fn pane_x(area: Rect, index: int, total: int) -> int {
    (index % spec_cols(total)) * (area.width as int / spec_cols(total))
}

/// The top edge of the pane at `index`, relative to the area.
pub open spec fn pane_y(area: Rect, index: int, total: int) -> int {
    (index / spec_cols(total)) * (area.height as int / spec_rows(total))
}

/// The width of the pane at `index`.
pub open spec fn pane_w(area: Rect, index: int, total: int) -> int {
    if spec_last_alone(index, total) {
        area.width as int
    } else {
        strip_len(area.width as int, spec_cols(total), index % spec_cols(total))
    }
}

/// The height of the pane at `index`.
pub open spec fn pane_h(area: Rect, index: int, total: int) -> int {
    strip_len(area.height as int, spec_rows(total), index / spec_cols(total))
}

/// The point `(px, py)` lies inside the pane at `index`.
pub open spec fn pane_covers(area: Rect, index: int, total: int, px: int, py: int) -> bool {
    &&& if spec_last_alone(index, total) {
        0 <= px - area.x < area.width as int
    } else {
        strip_covers(
            area.width as int,
            spec_cols(total),
            index % spec_cols(total),
            px - area.x,
        )
    }
    &&& strip_covers(
        area.height as int,
        spec_rows(total),
        index / spec_cols(total),
        py - area.y,
    )
}

/// Grid dimensions (rows, cols) for `n` panes: up to three panes one
/// column, beyond that two columns with as many rows as needed.
pub fn grid_dims(n: usize) -> (r: (usize, usize))
    ensures
        r.0 == spec_rows(n as int),
        r.1 == spec_cols(n as int),
{
    if n <= 3 {
        (n, 1)
    } else {
        let rows = n / 2 + n % 2;
        proof {
            lemma_fundamental_div_mod(n as int, 2);
        }
        (rows, 2)
    }
}

/// The rectangle of pane `index` in a grid of `total` panes over `area`.
/// Panes in the last column or row take the remaining space; a lone pane
/// in the last row takes the full width.
pub fn grid_rect(area: Rect, index: usize, total: usize) -> (r: Rect)
    requires
        index < total,
        total <= 0xFFFF,
        area.x + area.width <= u16::MAX,
        area.y + area.height <= u16::MAX,
    ensures
        r.x == area.x + pane_x(area, index as int, total as int),
        r.y == area.y + pane_y(area, index as int, total as int),
        r.width == pane_w(area, index as int, total as int),
        r.height == pane_h(area, index as int, total as int),
{
    let (rows, cols) = grid_dims(total);
    let col = index % cols;
    let row = index / cols;
    let cell_w = area.width / (cols as u16);
    let cell_h = area.height / (rows as u16);
    proof {
        lemma_fundamental_div_mod(area.width as int, cols as int);
        lemma_fundamental_div_mod(area.height as int, rows as int);
        lemma_fundamental_div_mod(index as int, cols as int);
        lemma_mul_inequality(col as int, cols as int - 1, cell_w as int);
        lemma_mul_inequality(row as int, rows as int - 1, cell_h as int);
        lemma_mul_inequality(rows as int - 1, rows as int, cell_h as int);
        lemma_mul_inequality(cols as int - 1, cols as int, cell_w as int);
    }
    let x = area.x + (col as u16) * cell_w;
    let y = area.y + (row as u16) * cell_h;
    let is_last_alone = index == total - 1 && total % cols != 0;
    let w = if is_last_alone {
        area.width
    } else if col == cols - 1 {
        area.width - (col as u16) * cell_w
    } else {
        cell_w
    };
    let h = if row == rows - 1 {
        area.height - (row as u16) * cell_h
    } else {
        cell_h
    };
    Rect { x, y, width: w, height: h }
}

/// The per-pane terminal size to assume before the first draw: the grid
/// cell for `nr_panes` panes inside a `total_rows` by `total_cols`
/// terminal, minus the status line and the pane borders, at least one cell
/// each way.
pub fn estimate_inner(total_rows: u16, total_cols: u16, nr_panes: u16) -> (r: (u16, u16))
    ensures
        r.0 >= 1,
        r.1 >= 1,
        r.0 as int == spec_estimate(total_rows as int - 1, spec_rows(nr_panes as int)),
        r.1 as int == spec_estimate(total_cols as int, spec_cols(nr_panes as int)),
{
    let (grid_rows, grid_cols) = grid_dims(nr_panes as usize);
    let usable_rows = if total_rows >= 1 {
        total_rows - 1
    } else {
        0
    };
    let div_r = if grid_rows >= 1 {
        grid_rows as u16
    } else {
        1
    };
    let div_c = if grid_cols >= 1 {
        grid_cols as u16
    } else {
        1
    };
    let pane_rows = usable_rows / div_r;
    let pane_cols = total_cols / div_c;
    let inner_rows = if pane_rows >= 2 {
        pane_rows - 2
    } else {
        0
    };
    let inner_cols = if pane_cols >= 2 {
        pane_cols - 2
    } else {
        0
    };
    let r0 = if inner_rows >= 1 {
        inner_rows
    } else {
        1
    };
    let r1 = if inner_cols >= 1 {
        inner_cols
    } else {
        1
    };
    (r0, r1)
}

/// One dimension of `estimate_inner`: a length cut into `m` parts, two
/// border cells taken off, floored at one.
pub open spec fn spec_estimate(len: int, m: int) -> int {
    let l = if len < 0 {
        0
    } else {
        len
    };
    let d = if m >= 1 {
        m
    } else {
        1
    };
    let part = l / d;
    let inner = if part >= 2 {
        part - 2
    } else {
        0
    };
    if inner >= 1 {
        inner
    } else {
        1
    }
}

/// Cutting a length into `m` strips covers every offset: some strip holds `p`.
proof fn lemma_strip_exists(len: int, m: int, p: int)
    requires
        1 <= m,
        0 <= p < len,
    ensures
        exists|k: int| 0 <= k < m && #[trigger] strip_covers(len, m, k, p),
{
    let cs = len / m;
    lemma_fundamental_div_mod(len, m);
    if cs == 0 {
        assert((m - 1) * 0 == 0) by (nonlinear_arith);
        assert(strip_covers(len, m, m - 1, p));
    } else {
        lemma_fundamental_div_mod(p, cs);
        let k = p / cs;
        if k < m - 1 {
            assert(strip_covers(len, m, k, p));
        } else {
            lemma_mul_inequality(m - 1, k, cs);
            assert((m - 1) * cs <= k * cs);
            assert(k * cs <= p);
            lemma_mul_inequality(m - 1, m, cs);
            assert(strip_covers(len, m, m - 1, p));
        }
    }
}

/// Strips do not overlap: no offset lies in two of them.
proof fn lemma_strip_unique(len: int, m: int, k1: int, k2: int, p: int)
    requires
        1 <= m,
        0 <= k1 < m,
        0 <= k2 < m,
        k1 != k2,
        strip_covers(len, m, k1, p),
    ensures
        !strip_covers(len, m, k2, p),
{
    let cs = len / m;
    lemma_fundamental_div_mod(len, m);
    if k1 < k2 {
        assert(p < k1 * cs + strip_len(len, m, k1));
        assert(strip_len(len, m, k1) == cs);
        lemma_mul_inequality(k1 + 1, k2, cs);
        assert((k1 + 1) * cs == k1 * cs + cs) by (nonlinear_arith);
        assert(p < k2 * cs);
    } else {
        if strip_covers(len, m, k2, p) {
            assert(p < k2 * cs + strip_len(len, m, k2));
            assert(strip_len(len, m, k2) == cs);
            lemma_mul_inequality(k2 + 1, k1, cs);
            assert((k2 + 1) * cs == k2 * cs + cs) by (nonlinear_arith);
            assert(p < k1 * cs);
            assert(k1 * cs <= p);
        }
    }
}

/// The grid never has fewer cells than panes, and its last row is not empty.
proof fn lemma_grid_shape(total: int)
    requires
        1 <= total,
    ensures
        spec_rows(total) * spec_cols(total) >= total,
        (spec_rows(total) - 1) * spec_cols(total) < total,
        spec_rows(total) >= 1,
        spec_last_alone(total - 1, total) ==> total - 1 == (spec_rows(total) - 1) * spec_cols(
            total,
        ),
{
    let c = spec_cols(total);
    let r = spec_rows(total);
    if total > 3 {
        lemma_fundamental_div_mod(total + 1, 2);
        lemma_fundamental_div_mod(total, 2);
        assert(r * 2 == 2 * r) by (nonlinear_arith);
        assert((r - 1) * 2 == 2 * r - 2) by (nonlinear_arith);
    }
}

/// Law: for any positive area and any pane count, every cell of the area
/// lies inside exactly one pane rectangle — the rectangles tile the area
/// with no gap and no overlap.
pub proof fn lemma_grid_tiles(area: Rect, total: int, px: int, py: int)
    requires
        1 <= total,
        area.x <= px < area.x + area.width,
        area.y <= py < area.y + area.height,
    ensures
        exists|i: int| 0 <= i < total && #[trigger] pane_covers(area, i, total, px, py),
        forall|i: int, j: int|
            0 <= i < total && 0 <= j < total && i != j && #[trigger] pane_covers(
                area,
                i,
                total,
                px,
                py,
            ) ==> !(#[trigger] pane_covers(area, j, total, px, py)),
{
    let c = spec_cols(total);
    let r = spec_rows(total);
    let rx = px - area.x;
    let ry = py - area.y;
    lemma_grid_shape(total);
    lemma_strip_exists(area.height as int, r, ry);
    let k = choose|k: int| 0 <= k < r && #[trigger] strip_covers(area.height as int, r, k, ry);

    // existence: build the pane index from the row and column strips
    if k < r - 1 || r * c == total {
        lemma_strip_exists(area.width as int, c, rx);
        let j = choose|j: int| 0 <= j < c && #[trigger] strip_covers(area.width as int, c, j, rx);
        let i = k * c + j;
        lemma_fundamental_div_mod(i, c);
        assert(i / c == k && i % c == j) by (nonlinear_arith)
            requires
                i == k * c + j,
                0 <= j < c,
                0 <= k,
                1 <= c,
        ;
        if k < r - 1 {
            lemma_mul_inequality(k, r - 2, c);
            assert(i <= (r - 2) * c + c - 1);
            assert((r - 2) * c + c == (r - 1) * c) by (nonlinear_arith);
            assert(i < total);
        } else {
            assert(i < r * c);
        }
        assert(strip_covers(area.height as int, r, k, ry));
        assert(strip_covers(area.width as int, c, j, rx));
        assert(i / c == k);
        assert(i % c == j);
        assert(strip_covers(area.height as int, spec_rows(total), i / spec_cols(total), py - area.y));
        if spec_last_alone(i, total) {
            assert(0 <= px - area.x < area.width as int) by {
                assert(j * (area.width as int / c) + strip_len(area.width as int, c, j)
                    <= area.width as int) by {
                    lemma_fundamental_div_mod(area.width as int, c);
                    lemma_mul_inequality(j, c - 1, area.width as int / c);
                    assert((c - 1) * (area.width as int / c) + area.width as int / c == c * (
                    area.width as int / c)) by (nonlinear_arith);
                }
            }
            assert(pane_covers(area, i, total, px, py));
        } else {
            assert(strip_covers(area.width as int, spec_cols(total), i % spec_cols(total), px - area.x));
            assert(pane_covers(area, i, total, px, py));
        }
        assert(exists|i2: int| 0 <= i2 < total && #[trigger] pane_covers(area, i2, total, px, py));
    } else {
        // the last row of an odd grid: one pane spans the full width
        let i = total - 1;
        assert(total % c != 0) by {
            lemma_fundamental_div_mod(total, c);
            if total % c == 0 {
                assert(total == (total / c) * c);
                assert(r * c >= total && (r - 1) * c < total);
                assert(r * c == total) by (nonlinear_arith)
                    requires
                        total == (total / c) * c,
                        r * c >= total,
                        (r - 1) * c < total,
                        1 <= c,
                ;
            }
        }
        assert(i == (r - 1) * c) by {
            assert(c == 2 && total % 2 != 0);
            lemma_fundamental_div_mod(total + 1, 2);
            lemma_fundamental_div_mod(total, 2);
            assert((r - 1) * 2 == 2 * r - 2) by (nonlinear_arith);
        }
        lemma_fundamental_div_mod(i, c);
        assert(i / c == r - 1 && i % c == 0) by (nonlinear_arith)
            requires
                i == (r - 1) * c,
                0 <= r - 1,
                1 <= c,
        ;
        assert(spec_last_alone(i, total));
        assert(strip_covers(area.height as int, r, k, ry));
        assert(k == r - 1);
        assert(i / c == r - 1);
        assert(strip_covers(area.height as int, spec_rows(total), i / spec_cols(total), py - area.y));
        assert(0 <= px - area.x < area.width as int);
        assert(pane_covers(area, i, total, px, py));
    }

    // uniqueness
    assert forall|i: int, j: int|
        0 <= i < total && 0 <= j < total && i != j && #[trigger] pane_covers(
            area,
            i,
            total,
            px,
            py,
        ) implies !(#[trigger] pane_covers(area, j, total, px, py)) by {
        if pane_covers(area, j, total, px, py) {
            let ri = i / c;
            let rj = j / c;
            lemma_fundamental_div_mod(i, c);
            lemma_fundamental_div_mod(j, c);
            if ri != rj {
                assert(0 <= ri < r) by {
                    assert(i < r * c);
                    assert(ri < r) by (nonlinear_arith)
                        requires
                            i < r * c,
                            i == c * ri + i % c,
                            0 <= i % c < c,
                            1 <= c,
                            0 <= ri,
                    ;
                }
                assert(0 <= rj < r) by {
                    assert(j < r * c);
                    assert(rj < r) by (nonlinear_arith)
                        requires
                            j < r * c,
                            j == c * rj + j % c,
                            0 <= j % c < c,
                            1 <= c,
                            0 <= rj,
                    ;
                }
                lemma_strip_unique(area.height as int, r, ri, rj, ry);
            } else {
                // same row: either two distinct columns, or one pane alone
                if spec_last_alone(i, total) {
                    assert(i == (r - 1) * c);
                    assert(rj == r - 1);
                    assert(j >= (r - 1) * c) by (nonlinear_arith)
                        requires
                            j == c * rj + j % c,
                            rj == r - 1,
                            0 <= j % c,
                            1 <= c,
                    ;
                    assert(j > i);
                    assert(j < total);
                } else if spec_last_alone(j, total) {
                    assert(j == (r - 1) * c);
                    assert(ri == r - 1);
                    assert(i >= (r - 1) * c) by (nonlinear_arith)
                        requires
                            i == c * ri + i % c,
                            ri == r - 1,
                            0 <= i % c,
                            1 <= c,
                    ;
                    assert(i > j);
                    assert(i < total);
                } else {
                    assert(i % c != j % c) by (nonlinear_arith)
                        requires
                            i == c * (i / c) + i % c,
                            j == c * (j / c) + j % c,
                            i / c == j / c,
                            i != j,
                    ;
                    lemma_strip_unique(area.width as int, c, i % c, j % c, rx);
                }
            }
        }
    }
}

} // verus!
