//! Dilation and erosion of masks with a square.

use crate::grid::{cell, column, lemma_cell, lemma_position, row};
use vstd::prelude::*;

verus! {

/// Whether the cell `(xx, yy)` of a `w` by `h` grid lies in the square of
/// radius `r` around `(x, y)`.
pub open spec fn near(w: int, h: int, r: int, x: int, y: int, xx: int, yy: int) -> bool {
    &&& 0 <= xx < w
    &&& 0 <= yy < h
    &&& x - r <= xx <= x + r
    &&& y - r <= yy <= y + r
}

/// Whether a mask is set in column `x` of row `y`.
pub open spec fn set_at(mask: Seq<u8>, w: int, x: int, y: int) -> bool {
    mask[cell(w, x, y)] != 0
}

/// What a morphological step makes of one cell: a dilation sets it when some
/// cell of the square around it is set, an erosion when all of them are.
pub open spec fn morph_at(
    mask: Seq<u8>,
    w: int,
    h: int,
    r: int,
    dilate: bool,
    x: int,
    y: int,
) -> bool {
    if dilate {
        exists|xx: int, yy: int|
            near(w, h, r, x, y, xx, yy) && #[trigger] set_at(mask, w, xx, yy)
    } else {
        forall|xx: int, yy: int|
            near(w, h, r, x, y, xx, yy) ==> #[trigger] set_at(mask, w, xx, yy)
    }
}

/// The same step along the row of a cell only.
pub open spec fn morph_row_at(
    mask: Seq<u8>,
    w: int,
    r: int,
    dilate: bool,
    x: int,
    y: int,
) -> bool {
    if dilate {
        exists|xx: int| 0 <= xx < w && x - r <= xx <= x + r && #[trigger] set_at(mask, w, xx, y)
    } else {
        forall|xx: int|
            0 <= xx < w && x - r <= xx <= x + r ==> #[trigger] set_at(mask, w, xx, y)
    }
}

/// The same step along the column of a cell only.
pub open spec fn morph_column_at(
    mask: Seq<u8>,
    w: int,
    h: int,
    r: int,
    dilate: bool,
    x: int,
    y: int,
) -> bool {
    if dilate {
        exists|yy: int| 0 <= yy < h && y - r <= yy <= y + r && #[trigger] set_at(mask, w, x, yy)
    } else {
        forall|yy: int|
            0 <= yy < h && y - r <= yy <= y + r ==> #[trigger] set_at(mask, w, x, yy)
    }
}

/// 1 for a set cell, 0 for a clear one.
pub open spec fn bit(b: bool) -> u8 {
    if b {
        1
    } else {
        0
    }
}

/// The mask after one morphological step. What is stored behind the grid
/// stays.
pub open spec fn morph(mask: Seq<u8>, w: int, h: int, r: int, dilate: bool) -> Seq<u8> {
    Seq::new(
        mask.len(),
        |i: int|
            if i < w * h {
                bit(morph_at(mask, w, h, r, dilate, column(w, i), row(w, i)))
            } else {
                mask[i]
            },
    )
}

/// `before` with the row step on `mask` written over its grid.
pub open spec fn morph_rows(
    mask: Seq<u8>,
    w: int,
    h: int,
    r: int,
    dilate: bool,
    before: Seq<u8>,
) -> Seq<u8> {
    Seq::new(
        before.len(),
        |i: int|
            if i < w * h {
                bit(morph_row_at(mask, w, r, dilate, column(w, i), row(w, i)))
            } else {
                before[i]
            },
    )
}

/// `out` is the mask after one morphological step on `mask`, cell by cell.
spec fn morphed(
    mask: Seq<u8>,
    w: int,
    h: int,
    r: int,
    dilate: bool,
    out: Seq<u8>,
) -> bool {
    &&& out.len() == mask.len()
    &&& forall|x: int, y: int|
        0 <= x < w && 0 <= y < h ==> #[trigger] out[cell(w, x, y)] == bit(
            morph_at(mask, w, h, r, dilate, x, y),
        )
    &&& forall|i: int| w * h <= i < mask.len() ==> #[trigger] out[i] == mask[i]
}

/// `out` is `before` with the row step on `mask` written over its grid, cell
/// by cell.
spec fn morphed_rows(
    mask: Seq<u8>,
    w: int,
    h: int,
    r: int,
    dilate: bool,
    before: Seq<u8>,
    out: Seq<u8>,
) -> bool {
    &&& out.len() == before.len()
    &&& forall|x: int, y: int|
        0 <= x < w && 0 <= y < h ==> #[trigger] out[cell(w, x, y)] == bit(
            morph_row_at(mask, w, r, dilate, x, y),
        )
    &&& forall|i: int| w * h <= i < before.len() ==> #[trigger] out[i] == before[i]
}

/// The first position of the window of radius `r` around `c`.
fn window_start(c: usize, r: usize) -> (lo: usize)
    ensures
        lo == if c >= r { c - r } else { 0 },
{
    if c >= r {
        c - r
    } else {
        0
    }
}

/// The position behind the window of radius `r` around `c` in `0..n`.
fn window_end(c: usize, r: usize, n: usize) -> (hi: usize)
    requires
        c < n,
        n + r <= usize::MAX,
    ensures
        hi == if c + r + 1 <= n { c + r + 1 } else { n as int },
{
    let e: usize = c + r + 1;
    if e <= n {
        e
    } else {
        n
    }
}

/// The row step for one cell.
fn morph_row(src: &[u8], w: usize, h: usize, r: usize, dilate: bool, x: usize, y: usize) -> (v: u8)
    requires
        x < w,
        y < h,
        src@.len() >= w * h,
        w + r <= usize::MAX,
    ensures
        v == bit(morph_row_at(src@, w as int, r as int, dilate, x as int, y as int)),
{
    proof {
        lemma_cell(w as int, h as int, x as int, y as int);
        assert(src.len() == src@.len());
    }
    let base: usize = y * w;
    let hi: usize = window_end(x, r, w);
    let mut i: usize = window_start(x, r);
    let ghost lo = i as int;
    while i < hi
        invariant
            x < w,
            y < h,
            src@.len() >= w * h,
            w * h <= usize::MAX,
            base == y * w,
            (y + 1) * w <= w * h,
            (y + 1) * w == y * w + w,
            hi <= w,
            lo <= i <= hi,
            0 <= lo,
            x - r <= lo,
            hi <= x + r + 1,
            forall|xx: int|
                lo <= xx < i ==> (#[trigger] set_at(src@, w as int, xx, y as int)) != dilate,
        decreases hi - i,
    {
        let s: bool = src[base + i] != 0;
        assert(s == set_at(src@, w as int, i as int, y as int));
        if s == dilate {
            return if dilate { 1 } else { 0 };
        }
        i += 1;
    }
    if dilate {
        0
    } else {
        1
    }
}

/// The column step for one cell.
fn morph_column(
    src: &[u8],
    w: usize,
    h: usize,
    r: usize,
    dilate: bool,
    x: usize,
    y: usize,
) -> (v: u8)
    requires
        x < w,
        y < h,
        src@.len() >= w * h,
        h + r <= usize::MAX,
    ensures
        v == bit(morph_column_at(src@, w as int, h as int, r as int, dilate, x as int, y as int)),
{
    assert(src.len() == src@.len());
    let hi: usize = window_end(y, r, h);
    let mut j: usize = window_start(y, r);
    let ghost lo = j as int;
    while j < hi
        invariant
            x < w,
            y < h,
            src@.len() >= w * h,
            w * h <= usize::MAX,
            hi <= h,
            lo <= j <= hi,
            0 <= lo,
            y - r <= lo,
            hi <= y + r + 1,
            forall|yy: int|
                lo <= yy < j ==> (#[trigger] set_at(src@, w as int, x as int, yy)) != dilate,
        decreases hi - j,
    {
        proof {
            lemma_cell(w as int, h as int, x as int, j as int);
        }
        let s: bool = src[j * w + x] != 0;
        assert(s == set_at(src@, w as int, x as int, j as int));
        if s == dilate {
            return if dilate { 1 } else { 0 };
        }
        j += 1;
    }
    if dilate {
        0
    } else {
        1
    }
}

/// A row step followed by a column step is the step over the square.
proof fn lemma_rows_then_columns(
    mask: Seq<u8>,
    rows: Seq<u8>,
    w: int,
    h: int,
    r: int,
    dilate: bool,
    x: int,
    y: int,
)
    requires
        0 <= x < w,
        0 <= y < h,
        r >= 0,
        forall|x: int, y: int|
            0 <= x < w && 0 <= y < h ==> #[trigger] rows[cell(w, x, y)] == bit(
                morph_row_at(mask, w, r, dilate, x, y),
            ),
    ensures
        morph_column_at(rows, w, h, r, dilate, x, y) == morph_at(mask, w, h, r, dilate, x, y),
{
    assert forall|yy: int| 0 <= yy < h implies #[trigger] set_at(rows, w, x, yy) == morph_row_at(
        mask,
        w,
        r,
        dilate,
        x,
        yy,
    ) by {
        assert(rows[cell(w, x, yy)] == bit(morph_row_at(mask, w, r, dilate, x, yy)));
    }
    if dilate {
        if morph_at(mask, w, h, r, dilate, x, y) {
            let (xx, yy) = choose|xx: int, yy: int|
                near(w, h, r, x, y, xx, yy) && #[trigger] set_at(mask, w, xx, yy);
            assert(morph_row_at(mask, w, r, dilate, x, yy));
            assert(set_at(rows, w, x, yy));
        }
        if morph_column_at(rows, w, h, r, dilate, x, y) {
            let yy = choose|yy: int|
                0 <= yy < h && y - r <= yy <= y + r && #[trigger] set_at(rows, w, x, yy);
            let xx = choose|xx: int|
                0 <= xx < w && x - r <= xx <= x + r && #[trigger] set_at(mask, w, xx, yy);
            assert(near(w, h, r, x, y, xx, yy) && set_at(mask, w, xx, yy));
        }
    } else {
        if morph_at(mask, w, h, r, dilate, x, y) {
            assert forall|yy: int| 0 <= yy < h && y - r <= yy <= y + r implies #[trigger] set_at(
                rows,
                w,
                x,
                yy,
            ) by {
                assert forall|xx: int| 0 <= xx < w && x - r <= xx <= x + r implies #[trigger] set_at(
                    mask,
                    w,
                    xx,
                    yy,
                ) by {
                    assert(near(w, h, r, x, y, xx, yy));
                }
                assert(morph_row_at(mask, w, r, dilate, x, yy));
            }
        }
        if morph_column_at(rows, w, h, r, dilate, x, y) {
            assert forall|xx: int, yy: int| near(w, h, r, x, y, xx, yy) implies #[trigger] set_at(
                mask,
                w,
                xx,
                yy,
            ) by {
                assert(set_at(rows, w, x, yy));
                assert(morph_row_at(mask, w, r, dilate, x, yy));
            }
        }
    }
}

/// Two cells of a grid are stored apart from each other.
proof fn lemma_cells_differ(w: int, h: int, x: int, y: int, xx: int, yy: int)
    requires
        0 <= x < w,
        0 <= y < h,
        0 <= xx < w,
        0 <= yy < h,
        x != xx || y != yy,
    ensures
        cell(w, x, y) != cell(w, xx, yy),
{
    lemma_cell(w, h, x, y);
    lemma_cell(w, h, xx, yy);
}

/// Dilates or erodes the `w` by `h` mask at the front of `buf` with a square
/// of radius `r`; the square is cut off at the border of the grid. `tmp` is
/// left with the result of the row step.
pub fn treasure_morph(
    buf: &mut [u8],
    tmp: &mut [u8],
    w: usize,
    h: usize,
    r: usize,
    dilate: bool,
)
    requires
        old(buf)@.len() >= w * h,
        old(tmp)@.len() >= w * h,
        w > 0 && h > 0 ==> w + r <= usize::MAX && h + r <= usize::MAX,
    ensures
        final(buf)@ == morph(old(buf)@, w as int, h as int, r as int, dilate),
        final(tmp)@ == morph_rows(
            old(buf)@,
            w as int,
            h as int,
            r as int,
            dilate,
            old(tmp)@,
        ),
{
    let ghost mask = buf@;
    let ghost before = tmp@;
    assert(buf.len() == buf@.len());
    let mut y: usize = 0;
    while y < h
        invariant
            buf@ == mask,
            w * h <= usize::MAX,
            mask.len() >= w * h,
            before.len() >= w * h,
            tmp@.len() == before.len(),
            w > 0 && h > 0 ==> w + r <= usize::MAX && h + r <= usize::MAX,
            y <= h,
            forall|xx: int, yy: int|
                0 <= xx < w && 0 <= yy < y ==> #[trigger] tmp@[cell(w as int, xx, yy)] == bit(
                    morph_row_at(mask, w as int, r as int, dilate, xx, yy),
                ),
            forall|i: int| w * h <= i < before.len() ==> #[trigger] tmp@[i] == before[i],
        decreases h - y,
    {
        let mut x: usize = 0;
        while x < w
            invariant
                buf@ == mask,
                w * h <= usize::MAX,
                mask.len() >= w * h,
                before.len() >= w * h,
                tmp@.len() == before.len(),
                w > 0 && h > 0 ==> w + r <= usize::MAX && h + r <= usize::MAX,
                y < h,
                x <= w,
                forall|xx: int, yy: int|
                    0 <= xx < w && 0 <= yy < h && (yy < y || yy == y && xx < x)
                        ==> #[trigger] tmp@[cell(w as int, xx, yy)] == bit(
                        morph_row_at(mask, w as int, r as int, dilate, xx, yy),
                    ),
                forall|i: int| w * h <= i < before.len() ==> #[trigger] tmp@[i] == before[i],
            decreases w - x,
        {
            proof {
                lemma_cell(w as int, h as int, x as int, y as int);
            }
            let v: u8 = morph_row(buf, w, h, r, dilate, x, y);
            let ghost prev = tmp@;
            tmp[y * w + x] = v;
            proof {
                assert forall|xx: int, yy: int|
                    0 <= xx < w && 0 <= yy < h && (yy < y || yy == y && xx < x
                        + 1) implies #[trigger] tmp@[cell(w as int, xx, yy)] == bit(
                    morph_row_at(mask, w as int, r as int, dilate, xx, yy),
                ) by {
                    if xx != x || yy != y {
                        lemma_cells_differ(w as int, h as int, x as int, y as int, xx, yy);
                        lemma_cell(w as int, h as int, xx, yy);
                        assert(tmp@[cell(w as int, xx, yy)] == prev[cell(w as int, xx, yy)]);
                    }
                }
            }
            x += 1;
        }
        y += 1;
    }
    let ghost rows = tmp@;
    let mut x: usize = 0;
    while x < w
        invariant
            tmp@ == rows,
            w * h <= usize::MAX,
            mask.len() >= w * h,
            rows.len() >= w * h,
            buf@.len() == mask.len(),
            w > 0 && h > 0 ==> w + r <= usize::MAX && h + r <= usize::MAX,
            x <= w,
            forall|xx: int, yy: int|
                0 <= xx < w && 0 <= yy < h ==> #[trigger] rows[cell(w as int, xx, yy)] == bit(
                    morph_row_at(mask, w as int, r as int, dilate, xx, yy),
                ),
            forall|xx: int, yy: int|
                0 <= xx < x && 0 <= yy < h ==> #[trigger] buf@[cell(w as int, xx, yy)] == bit(
                    morph_at(mask, w as int, h as int, r as int, dilate, xx, yy),
                ),
            forall|i: int| w * h <= i < mask.len() ==> #[trigger] buf@[i] == mask[i],
        decreases w - x,
    {
        let mut y: usize = 0;
        while y < h
            invariant
                tmp@ == rows,
                w * h <= usize::MAX,
                mask.len() >= w * h,
                rows.len() >= w * h,
                buf@.len() == mask.len(),
                w > 0 && h > 0 ==> w + r <= usize::MAX && h + r <= usize::MAX,
                x < w,
                y <= h,
                forall|xx: int, yy: int|
                    0 <= xx < w && 0 <= yy < h ==> #[trigger] rows[cell(w as int, xx, yy)] == bit(
                        morph_row_at(mask, w as int, r as int, dilate, xx, yy),
                    ),
                forall|xx: int, yy: int|
                    0 <= xx < w && 0 <= yy < h && (xx < x || xx == x && yy < y)
                        ==> #[trigger] buf@[cell(w as int, xx, yy)] == bit(
                        morph_at(mask, w as int, h as int, r as int, dilate, xx, yy),
                    ),
                forall|i: int| w * h <= i < mask.len() ==> #[trigger] buf@[i] == mask[i],
            decreases h - y,
        {
            proof {
                lemma_cell(w as int, h as int, x as int, y as int);
                lemma_rows_then_columns(
                    mask,
                    rows,
                    w as int,
                    h as int,
                    r as int,
                    dilate,
                    x as int,
                    y as int,
                );
            }
            let v: u8 = morph_column(tmp, w, h, r, dilate, x, y);
            let ghost prev = buf@;
            buf[y * w + x] = v;
            proof {
                assert forall|xx: int, yy: int|
                    0 <= xx < w && 0 <= yy < h && (xx < x || xx == x && yy < y
                        + 1) implies #[trigger] buf@[cell(w as int, xx, yy)] == bit(
                    morph_at(mask, w as int, h as int, r as int, dilate, xx, yy),
                ) by {
                    if xx != x || yy != y {
                        lemma_cells_differ(w as int, h as int, x as int, y as int, xx, yy);
                        lemma_cell(w as int, h as int, xx, yy);
                        assert(buf@[cell(w as int, xx, yy)] == prev[cell(w as int, xx, yy)]);
                    }
                }
            }
            y += 1;
        }
        x += 1;
    }
    proof {
        lemma_morphed(mask, w as int, h as int, r as int, dilate, buf@);
        lemma_morphed_rows(mask, w as int, h as int, r as int, dilate, before, tmp@);
    }
}

proof fn lemma_morphed(mask: Seq<u8>, w: int, h: int, r: int, dilate: bool, out: Seq<u8>)
    requires
        0 <= w,
        0 <= h,
        w * h <= mask.len(),
        morphed(mask, w, h, r, dilate, out),
    ensures
        out == morph(mask, w, h, r, dilate),
{
    let want = morph(mask, w, h, r, dilate);
    assert forall|i: int| 0 <= i < mask.len() implies out[i] == want[i] by {
        if i < w * h {
            assert(w > 0) by (nonlinear_arith)
                requires
                    0 <= i < w * h,
                    0 <= w,
                    0 <= h,
            ;
            lemma_position(w, h, i);
            assert(out[cell(w, column(w, i), row(w, i))] == want[i]);
        }
    }
    assert(out =~= want);
}

proof fn lemma_morphed_rows(
    mask: Seq<u8>,
    w: int,
    h: int,
    r: int,
    dilate: bool,
    before: Seq<u8>,
    out: Seq<u8>,
)
    requires
        0 <= w,
        0 <= h,
        w * h <= before.len(),
        morphed_rows(mask, w, h, r, dilate, before, out),
    ensures
        out == morph_rows(mask, w, h, r, dilate, before),
{
    let want = morph_rows(mask, w, h, r, dilate, before);
    assert forall|i: int| 0 <= i < before.len() implies out[i] == want[i] by {
        if i < w * h {
            assert(w > 0) by (nonlinear_arith)
                requires
                    0 <= i < w * h,
                    0 <= w,
                    0 <= h,
            ;
            lemma_position(w, h, i);
            assert(out[cell(w, column(w, i), row(w, i))] == want[i]);
        }
    }
    assert(out =~= want);
}

/// A dilation keeps what is set.
pub proof fn law_dilation_keeps(mask: Seq<u8>, w: int, h: int, r: int, i: int)
    requires
        w > 0,
        r >= 0,
        0 <= i < w * h,
        w * h <= mask.len(),
        mask[i] != 0,
    ensures
        morph(mask, w, h, r, true)[i] != 0,
{
    lemma_position(w, h, i);
    let x = column(w, i);
    let y = row(w, i);
    assert(near(w, h, r, x, y, x, y) && set_at(mask, w, x, y));
}

/// An erosion sets nothing that was clear.
pub proof fn law_erosion_adds_nothing(mask: Seq<u8>, w: int, h: int, r: int, i: int)
    requires
        w > 0,
        r >= 0,
        0 <= i < w * h,
        w * h <= mask.len(),
        mask[i] == 0,
    ensures
        morph(mask, w, h, r, false)[i] == 0,
{
    lemma_position(w, h, i);
    let x = column(w, i);
    let y = row(w, i);
    assert(near(w, h, r, x, y, x, y) && !set_at(mask, w, x, y));
}

/// Closing a mask, a dilation and then an erosion with the same radius, keeps
/// what is set.
pub proof fn law_closing_keeps(mask: Seq<u8>, w: int, h: int, r: int, i: int)
    requires
        w > 0,
        r >= 0,
        0 <= i < w * h,
        w * h <= mask.len(),
        mask[i] != 0,
    ensures
        morph(morph(mask, w, h, r, true), w, h, r, false)[i] != 0,
{
    lemma_position(w, h, i);
    let x = column(w, i);
    let y = row(w, i);
    let wide = morph(mask, w, h, r, true);
    assert forall|xx: int, yy: int| near(w, h, r, x, y, xx, yy) implies #[trigger] set_at(
        wide,
        w,
        xx,
        yy,
    ) by {
        lemma_cell(w, h, xx, yy);
        assert(near(w, h, r, xx, yy, x, y) && set_at(mask, w, x, y));
        assert(morph_at(mask, w, h, r, true, xx, yy));
    }
}

/// A larger mask stays larger under either step.
pub proof fn law_morph_monotone(
    mask: Seq<u8>,
    larger: Seq<u8>,
    w: int,
    h: int,
    r: int,
    dilate: bool,
    i: int,
)
    requires
        w > 0,
        0 <= i < w * h,
        w * h <= mask.len(),
        mask.len() == larger.len(),
        forall|j: int| 0 <= j < w * h && mask[j] != 0 ==> #[trigger] larger[j] != 0,
        morph(mask, w, h, r, dilate)[i] != 0,
    ensures
        morph(larger, w, h, r, dilate)[i] != 0,
{
    lemma_position(w, h, i);
    let x = column(w, i);
    let y = row(w, i);
    assert forall|xx: int, yy: int|
        near(w, h, r, x, y, xx, yy) && set_at(mask, w, xx, yy) implies #[trigger] set_at(
        larger,
        w,
        xx,
        yy,
    ) by {
        lemma_cell(w, h, xx, yy);
        assert(larger[cell(w, xx, yy)] != 0);
    }
    assert(morph_at(mask, w, h, r, dilate, x, y));
    if dilate {
        let (xx, yy) = choose|xx: int, yy: int|
            near(w, h, r, x, y, xx, yy) && #[trigger] set_at(mask, w, xx, yy);
        assert(near(w, h, r, x, y, xx, yy) && set_at(larger, w, xx, yy));
    } else {
        assert forall|xx: int, yy: int| near(w, h, r, x, y, xx, yy) implies #[trigger] set_at(
            larger,
            w,
            xx,
            yy,
        ) by {
            assert(set_at(mask, w, xx, yy));
        }
    }
}

/// What a morphological step makes of a cell stands in the mask behind it.
pub proof fn lemma_step_at(mask: Seq<u8>, w: int, h: int, r: int, dilate: bool, x: int, y: int)
    requires
        0 <= x < w,
        0 <= y < h,
        w * h <= mask.len(),
    ensures
        set_at(morph(mask, w, h, r, dilate), w, x, y) == morph_at(mask, w, h, r, dilate, x, y),
{
    lemma_cell(w, h, x, y);
}

/// An erosion and then a dilation with the same radius set nothing that was
/// clear.
pub proof fn law_opening_adds_nothing(mask: Seq<u8>, w: int, h: int, r: int, i: int)
    requires
        w > 0,
        0 <= i < w * h,
        w * h <= mask.len(),
        mask[i] == 0,
    ensures
        morph(morph(mask, w, h, r, false), w, h, r, true)[i] == 0,
{
    lemma_position(w, h, i);
    let x = column(w, i);
    let y = row(w, i);
    let thin = morph(mask, w, h, r, false);
    if morph_at(thin, w, h, r, true, x, y) {
        let (xx, yy) = choose|xx: int, yy: int|
            near(w, h, r, x, y, xx, yy) && #[trigger] set_at(thin, w, xx, yy);
        lemma_step_at(mask, w, h, r, false, xx, yy);
        assert(near(w, h, r, xx, yy, x, y));
        assert(set_at(mask, w, x, y));
    }
}

/// The mask behind a dilation and then an erosion with the same radius.
pub open spec fn closed(mask: Seq<u8>, w: int, h: int, r: int) -> Seq<u8> {
    morph(morph(mask, w, h, r, true), w, h, r, false)
}

/// To close a mask a second time changes nothing.
pub proof fn law_closing_once_is_enough(mask: Seq<u8>, w: int, h: int, r: int)
    requires
        w >= 0,
        h >= 0,
        r >= 0,
        w * h <= mask.len(),
    ensures
        closed(closed(mask, w, h, r), w, h, r) == closed(mask, w, h, r),
{
    let once = closed(mask, w, h, r);
    let twice = closed(once, w, h, r);
    let wide = morph(mask, w, h, r, true);
    let wider = morph(once, w, h, r, true);
    assert forall|i: int| 0 <= i < mask.len() implies twice[i] == once[i] by {
        if i < w * h {
            assert(w > 0) by (nonlinear_arith)
                requires
                    0 <= i < w * h,
                    0 <= w,
                    0 <= h,
            ;
            lemma_position(w, h, i);
            if once[i] != 0 {
                law_closing_keeps(once, w, h, r, i);
            }
            if twice[i] != 0 {
                assert forall|j: int| 0 <= j < w * h && wider[j] != 0 implies #[trigger] wide[j]
                    != 0 by {
                    if wide[j] == 0 {
                        law_opening_adds_nothing(wide, w, h, r, j);
                    }
                }
                law_morph_monotone(wider, wide, w, h, r, false, i);
            }
        }
    }
    assert(twice =~= once);
}

/// The position nearest to `to` that is at most `r` away from `c`.
spec fn toward(c: int, to: int, r: int) -> int {
    if to < c - r {
        c - r
    } else if to > c + r {
        c + r
    } else {
        to
    }
}

/// Two steps of the same kind, one behind the other, are one step whose radius is
/// the sum of theirs.
pub proof fn law_radii_add_up(mask: Seq<u8>, w: int, h: int, r: int, s: int, dilate: bool)
    requires
        w >= 0,
        h >= 0,
        r >= 0,
        s >= 0,
        w * h <= mask.len(),
    ensures
        morph(morph(mask, w, h, r, dilate), w, h, s, dilate) == morph(mask, w, h, r + s, dilate),
{
    let first = morph(mask, w, h, r, dilate);
    let both = morph(first, w, h, s, dilate);
    let one = morph(mask, w, h, r + s, dilate);
    assert forall|i: int| 0 <= i < mask.len() implies both[i] == one[i] by {
        if i < w * h {
            assert(w > 0) by (nonlinear_arith)
                requires
                    0 <= i < w * h,
                    0 <= w,
                    0 <= h,
            ;
            lemma_position(w, h, i);
            lemma_radii_at(mask, w, h, r, s, dilate, column(w, i), row(w, i));
        }
    }
    assert(both =~= one);
}

proof fn lemma_radii_at(
    mask: Seq<u8>,
    w: int,
    h: int,
    r: int,
    s: int,
    dilate: bool,
    x: int,
    y: int,
)
    requires
        0 <= x < w,
        0 <= y < h,
        r >= 0,
        s >= 0,
        w * h <= mask.len(),
    ensures
        morph_at(morph(mask, w, h, r, dilate), w, h, s, dilate, x, y) == morph_at(
            mask,
            w,
            h,
            r + s,
            dilate,
            x,
            y,
        ),
{
    let first = morph(mask, w, h, r, dilate);
    let there = morph_at(first, w, h, s, dilate, x, y);
    let direct = morph_at(mask, w, h, r + s, dilate, x, y);
    if dilate {
        if there {
            let (a, b) = choose|a: int, b: int|
                near(w, h, s, x, y, a, b) && #[trigger] set_at(first, w, a, b);
            lemma_step_at(mask, w, h, r, dilate, a, b);
            let (xx, yy) = choose|xx: int, yy: int|
                near(w, h, r, a, b, xx, yy) && #[trigger] set_at(mask, w, xx, yy);
            assert(near(w, h, r + s, x, y, xx, yy) && set_at(mask, w, xx, yy));
        }
        if direct {
            let (xx, yy) = choose|xx: int, yy: int|
                near(w, h, r + s, x, y, xx, yy) && #[trigger] set_at(mask, w, xx, yy);
            let (a, b) = (toward(x, xx, s), toward(y, yy, s));
            lemma_step_at(mask, w, h, r, dilate, a, b);
            assert(near(w, h, r, a, b, xx, yy) && set_at(mask, w, xx, yy));
            assert(near(w, h, s, x, y, a, b) && set_at(first, w, a, b));
        }
    } else {
        if there {
            assert forall|xx: int, yy: int|
                near(w, h, r + s, x, y, xx, yy) implies #[trigger] set_at(mask, w, xx, yy) by {
                let (a, b) = (toward(x, xx, s), toward(y, yy, s));
                lemma_step_at(mask, w, h, r, dilate, a, b);
                assert(near(w, h, s, x, y, a, b) && set_at(first, w, a, b));
                assert(near(w, h, r, a, b, xx, yy));
            }
        }
        if direct {
            assert forall|a: int, b: int| near(w, h, s, x, y, a, b) implies #[trigger] set_at(
                first,
                w,
                a,
                b,
            ) by {
                lemma_step_at(mask, w, h, r, dilate, a, b);
                assert forall|xx: int, yy: int|
                    near(w, h, r, a, b, xx, yy) implies #[trigger] set_at(mask, w, xx, yy) by {
                    assert(near(w, h, r + s, x, y, xx, yy));
                }
            }
        }
    }
}

/// A step goes by distance: a dilation sets a cell exactly when a set cell is at
/// most `r` columns and `r` rows away, an erosion clears it exactly when a clear
/// cell is. What comes out is 0 or 1.
pub proof fn law_step_by_distance(mask: Seq<u8>, w: int, h: int, r: int, x: int, y: int)
    requires
        0 <= x < w,
        0 <= y < h,
        w * h <= mask.len(),
    ensures
        morph(mask, w, h, r, true)[y * w + x] == 1 <==> exists|xx: int, yy: int|
            0 <= xx < w && 0 <= yy < h && -r <= xx - x <= r && -r <= yy - y <= r
                && #[trigger] mask[yy * w + xx] != 0,
        morph(mask, w, h, r, false)[y * w + x] == 0 <==> exists|xx: int, yy: int|
            0 <= xx < w && 0 <= yy < h && -r <= xx - x <= r && -r <= yy - y <= r
                && #[trigger] mask[yy * w + xx] == 0,
        morph(mask, w, h, r, true)[y * w + x] <= 1,
        morph(mask, w, h, r, false)[y * w + x] <= 1,
        morph(mask, w, h, r, true).len() == mask.len(),
        morph(mask, w, h, r, false).len() == mask.len(),
{
    lemma_cell(w, h, x, y);
    lemma_step_at(mask, w, h, r, true, x, y);
    lemma_step_at(mask, w, h, r, false, x, y);
    if morph_at(mask, w, h, r, true, x, y) {
        let (xx, yy) = choose|xx: int, yy: int|
            near(w, h, r, x, y, xx, yy) && #[trigger] set_at(mask, w, xx, yy);
        assert(mask[yy * w + xx] != 0);
    }
    assert forall|xx: int, yy: int|
        0 <= xx < w && 0 <= yy < h && -r <= xx - x <= r && -r <= yy - y <= r
            && #[trigger] mask[yy * w + xx] != 0 implies morph_at(
        mask,
        w,
        h,
        r,
        true,
        x,
        y,
    ) by {
        assert(near(w, h, r, x, y, xx, yy) && set_at(mask, w, xx, yy));
    }
    if !morph_at(mask, w, h, r, false, x, y) {
        let (xx, yy) = choose|xx: int, yy: int|
            near(w, h, r, x, y, xx, yy) && !#[trigger] set_at(mask, w, xx, yy);
        assert(mask[yy * w + xx] == 0);
    }
    assert forall|xx: int, yy: int|
        0 <= xx < w && 0 <= yy < h && -r <= xx - x <= r && -r <= yy - y <= r
            && #[trigger] mask[yy * w + xx] == 0 implies !morph_at(
        mask,
        w,
        h,
        r,
        false,
        x,
        y,
    ) by {
        assert(near(w, h, r, x, y, xx, yy) && !set_at(mask, w, xx, yy));
    }
}

/// A step changes nothing behind the grid.
pub proof fn law_step_stays_in_the_grid(mask: Seq<u8>, w: int, h: int, r: int, dilate: bool, i: int)
    requires
        0 <= i,
        w * h <= i < mask.len(),
    ensures
        morph(mask, w, h, r, dilate)[i] == mask[i],
{
}

} // verus!
