//! How many panes fit beside each other.
//!
//! Deck fills panes in the direction you asked for, then wraps — never
//! narrower than `min_pane_width`, never more than `max_columns`.

use vstd::prelude::*;

verus! {

/// Which direction panes fill before they wrap.
#[derive(Debug, Clone, Copy, PartialEq, Eq)]
pub enum Arrange {
    /// One full-width pane per row. The default.
    Stacked,
    /// Side by side, as far as the width allows.
    Columns,
    /// Squared off — the shape that keeps four refs on screen at once.
    Grid,
}

impl Default for Arrange {
    fn default() -> (r: Self)
        ensures
            r == Arrange::Stacked,
    {
        Arrange::Stacked
    }
}

/// The layout settings, as they appear under `[layout]` in the config file.
#[derive(Debug, Clone, Copy, PartialEq, Eq)]
pub struct Layout {
    /// Which direction panes fill before wrapping.
    pub arrange: Arrange,
    /// The most columns to use, however wide the window gets.
    pub max_columns: u32,
    /// The narrowest a pane may be. A column is dropped rather than go under
    /// this.
    pub min_pane_width: u32,
    /// The most panes on one page. Refs past this become the next page.
    pub max_panes: u32,
}

impl Default for Layout {
    fn default() -> (r: Self)
        ensures
            r == (Layout {
                arrange: Arrange::Stacked,
                max_columns: 3,
                min_pane_width: 60,
                max_panes: 4,
            }),
    {
        Layout { arrange: Arrange::Stacked, max_columns: 3, min_pane_width: 60, max_panes: 4 }
    }
}

/// How the panes on one page are arranged.
#[derive(Debug, Clone, Copy, PartialEq, Eq)]
pub struct Grid {
    /// Panes across. At least one.
    pub cols: u32,
    /// Rows needed to hold them all. At least one.
    pub rows: u32,
}

/// The largest whole number whose square is at most `n`.
pub open spec fn is_isqrt(n: int, r: int) -> bool {
    0 <= r && r * r <= n && n < (r + 1) * (r + 1)
}

/// The whole square root of `n`, rounded down, as `u32::isqrt` gives it.
pub fn isqrt(n: u32) -> (r: u32)
    ensures
        is_isqrt(n as int, r as int),
{
    let mut r: u64 = 0;
    loop
        invariant
            r * r <= n,
            r <= 0x1_0000,
        ensures
            r * r <= n < (r + 1) * (r + 1),
        decreases n - r * r,
    {
        let s = r + 1;
        assert(s * s <= 0x1_0001 * 0x1_0001) by (nonlinear_arith)
            requires
                s <= 0x1_0001,
        ;
        if s * s > n as u64 {
            break;
        }
        assert(s * s > r * r) by (nonlinear_arith)
            requires
                s == r + 1,
        ;
        assert(s <= 0x1_0000) by (nonlinear_arith)
            requires
                s * s <= n,
                n <= 0xffff_ffff,
        ;
        r = s;
    }
    assert(r <= 0xffff) by (nonlinear_arith)
        requires
            r * r <= n,
            n <= 0xffff_ffff,
    ;
    r as u32
}

/// `a` divided by `b`, rounded up.
pub open spec fn ceil_div(a: int, b: int) -> int {
    (a + b - 1) / b
}

/// The smaller of two numbers.
pub open spec fn min_u32(a: u32, b: u32) -> u32 {
    if a <= b { a } else { b }
}

/// The larger of two numbers.
pub open spec fn max_u32(a: u32, b: u32) -> u32 {
    if a >= b { a } else { b }
}

impl Layout {
    /// How many columns the arrangement asks for, before any guard bites.
    pub open spec fn wanted(self, panes: u32) -> int {
        match self.arrange {
            Arrange::Stacked => 1,
            Arrange::Columns => panes as int,
            Arrange::Grid => choose|r: int| is_isqrt(panes as int, r),
        }
    }

    /// The columns `grid` settles on for `panes` panes (at least one) in a
    /// window `width` wide: whichever guard bites hardest, and never fewer
    /// than one.
    pub open spec fn spec_cols(self, panes: u32, width: u32) -> int {
        let panes = max_u32(panes, 1) as int;
        let by_width = width as int / max_u32(self.min_pane_width, 1) as int;
        let capped = if self.wanted(max_u32(panes as u32, 1)) <= max_u32(self.max_columns, 1) {
            self.wanted(max_u32(panes as u32, 1))
        } else {
            max_u32(self.max_columns, 1) as int
        };
        let capped = if capped <= by_width { capped } else { by_width };
        let capped = if capped <= panes { capped } else { panes };
        if capped >= 1 { capped } else { 1 }
    }

    /// The grid for `panes` panes in a window `width` wide.
    ///
    /// `width` is in whatever unit `min_pane_width` is given in; the two only
    /// have to agree with each other.
    pub fn grid(&self, panes: u32, width: u32) -> (g: Grid)
        ensures
            g.cols == self.spec_cols(panes, width),
            g.rows == ceil_div(max_u32(panes, 1) as int, g.cols as int),
            1 <= g.cols <= max_u32(panes, 1),
            g.cols <= max_u32(self.max_columns, 1),
            g.cols == 1 || g.cols * max_u32(self.min_pane_width, 1) <= width,
            g.rows >= 1,
            (g.rows - 1) * g.cols < max_u32(panes, 1) <= g.rows * g.cols,
    {
        let panes = if panes >= 1 { panes } else { 1 };
        let wanted = match self.arrange {
            Arrange::Stacked => 1,
            Arrange::Columns => panes,
            Arrange::Grid => {
                let r = isqrt(panes);
                proof {
                    assert forall|a: int, b: int|
                        is_isqrt(panes as int, a) && is_isqrt(panes as int, b) implies a == b by {
                        if a < b {
                            assert((a + 1) * (a + 1) <= b * b) by (nonlinear_arith)
                                requires
                                    0 <= a < b,
                            ;
                        } else if b < a {
                            assert((b + 1) * (b + 1) <= a * a) by (nonlinear_arith)
                                requires
                                    0 <= b < a,
                            ;
                        }
                    }
                    let c = choose|c: int| is_isqrt(panes as int, c);
                    assert(is_isqrt(panes as int, r as int));
                    assert(c == r);
                }
                r
            },
        };
        let max_columns = if self.max_columns >= 1 {
            self.max_columns
        } else {
            1
        };
        let min_width = if self.min_pane_width >= 1 {
            self.min_pane_width
        } else {
            1
        };
        let by_width = width / min_width;
        let mut cols = if wanted <= max_columns {
            wanted
        } else {
            max_columns
        };
        cols = if cols <= by_width {
            cols
        } else {
            by_width
        };
        cols = if cols <= panes {
            cols
        } else {
            panes
        };
        cols = if cols >= 1 {
            cols
        } else {
            1
        };
        assert(cols == 1 || cols * min_width <= width) by (nonlinear_arith)
            requires
                cols == 1 || cols <= width / min_width,
                min_width >= 1,
        ;
        let q = panes / cols;
        assert(q * cols + panes % cols == panes && (panes % cols > 0 ==> q < panes)) by (
        nonlinear_arith)
            requires
                cols >= 1,
                q == panes / cols,
        ;
        let rows = if panes % cols == 0 {
            q
        } else {
            q + 1
        };
        assert(rows == ceil_div(panes as int, cols as int) && rows >= 1 && (rows - 1) * cols
            < panes <= rows * cols) by (nonlinear_arith)
            requires
                cols >= 1,
                panes >= 1,
                q == panes / cols,
                panes % cols == 0 ==> rows == q,
                panes % cols != 0 ==> rows == q + 1,
        ;
        Grid { cols, rows }
    }

    /// The same settings, for a page that has a picture on it.
    ///
    /// Only the default, `Stacked`, gives way, and it turns sideways; an
    /// arrangement the reader asked for is left alone.
    pub fn beside_pictures(self) -> (r: Self)
        ensures
            r.arrange == (match self.arrange {
                Arrange::Stacked => Arrange::Columns,
                asked_for => asked_for,
            }),
            r.max_columns == self.max_columns,
            r.min_pane_width == self.min_pane_width,
            r.max_panes == self.max_panes,
    {
        Layout {
            arrange: match self.arrange {
                Arrange::Stacked => Arrange::Columns,
                asked_for => asked_for,
            },
            ..self
        }
    }

    /// The refs for each page, in order: runs of at most `max_panes` (or one,
    /// when that is zero), the last one holding what is left.
    pub fn pages<'a, T>(&self, refs: &'a [T]) -> (r: Vec<&'a [T]>)
        ensures
            r@.len() == ceil_div(refs@.len() as int, max_u32(self.max_panes, 1) as int),
            forall|i: int|
                0 <= i < r@.len() ==> #[trigger] r@[i]@ == refs@.subrange(
                    i * max_u32(self.max_panes, 1),
                    if (i + 1) * max_u32(self.max_panes, 1) <= refs@.len() {
                        (i + 1) * max_u32(self.max_panes, 1)
                    } else {
                        refs@.len() as int
                    },
                ),
    {
        let size: usize = if self.max_panes >= 1 {
            self.max_panes as usize
        } else {
            1
        };
        let ghost k = max_u32(self.max_panes, 1) as int;
        let mut out: Vec<&'a [T]> = Vec::new();
        let mut start: usize = 0;
        proof {
            assert(ceil_div(0, k) == 0) by (nonlinear_arith)
                requires
                    k >= 1,
            ;
            assert(out@.len() * k == 0) by (nonlinear_arith)
                requires
                    out@.len() == 0,
            ;
        }
        while start < refs.len()
            invariant
                size == k,
                k == max_u32(self.max_panes, 1),
                k >= 1,
                start <= refs@.len(),
                start == out@.len() * k,
                out@.len() == ceil_div(start as int, k),
                forall|i: int|
                    0 <= i < out@.len() ==> #[trigger] out@[i]@ == refs@.subrange(
                        i * k,
                        if (i + 1) * k <= refs@.len() {
                            (i + 1) * k
                        } else {
                            refs@.len() as int
                        },
                    ),
            decreases refs@.len() - start,
        {
            let end = if refs.len() - start >= size {
                start + size
            } else {
                refs.len()
            };
            let page = vstd::slice::slice_subrange(refs, start, end);
            let ghost n = out@.len() as int;
            out.push(page);
            proof {
                assert((n + 1) * k == n * k + k) by (nonlinear_arith);
                assert(out@[n]@ == refs@.subrange(
                    n * k,
                    if (n + 1) * k <= refs@.len() {
                        (n + 1) * k
                    } else {
                        refs@.len() as int
                    },
                ));
            }
            if end == refs.len() {
                proof {
                    assert(ceil_div(refs@.len() as int, k) == n + 1) by (nonlinear_arith)
                        requires
                            n * k < refs@.len() <= n * k + k,
                            k >= 1,
                    ;
                }
                return out;
            }
            start = end;
            proof {
                assert(ceil_div(start as int, k) == n + 1) by (nonlinear_arith)
                    requires
                        start == n * k + k,
                        k >= 1,
                ;
            }
        }
        out
    }
}

/// Side by side, the panes fill one row as far as the guards allow: the
/// columns are the most (any `k` that meets the guards is no more) that is
/// no more than the panes, no more than the
/// column cap, and fits the width at the narrowest a pane may be, and never
/// fewer than one.
pub proof fn lemma_columns_fill_the_row(l: Layout, panes: u32, width: u32, k: int)
    requires
        l.arrange == Arrange::Columns,
    ensures
        l.spec_cols(panes, width) >= 1,
        l.spec_cols(panes, width) <= max_u32(panes, 1),
        l.spec_cols(panes, width) <= max_u32(l.max_columns, 1),
        l.spec_cols(panes, width) == 1 || l.spec_cols(panes, width) * max_u32(l.min_pane_width, 1) <= width,
        1 <= k <= max_u32(panes, 1) && k <= max_u32(l.max_columns, 1) && k * max_u32(l.min_pane_width, 1)
            <= width ==> k <= l.spec_cols(panes, width),
{
    let m = max_u32(l.min_pane_width, 1) as int;
    let c = l.spec_cols(panes, width);
    let w = width as int / m;
    assert(w * m <= width) by (nonlinear_arith)
        requires
            m >= 1,
            w == width as int / m,
            width >= 0,
    ;
    if 1 <= k <= max_u32(panes, 1) && k <= max_u32(l.max_columns, 1) && k * m <= width {
        assert(k <= w) by (nonlinear_arith)
            requires
                m >= 1,
                k * m <= width,
                w == width as int / m,
                width >= 0,
        ;
    }
    if c > 1 {
        assert(c <= w);
        assert(c * m <= w * m) by (nonlinear_arith)
            requires
                c <= w,
                m >= 1,
        ;
    }
}

} // verus!
