//! Looking for a picture in a frame by cross-correlation: which part of the
//! frame is searched, how frame and picture are laid out for the transform, and
//! where the best place is in what comes back. Numbers that are computed with
//! are double precision floats, given by their bits.

use vstd::arithmetic::power2::{lemma_pow2_unfold, pow2};
use vstd::prelude::*;
use crate::grid::{cell, column, lemma_cell, lemma_position, row};
use crate::order::{argmax, double_key, first_largest, key_of_double};
use crate::vision::{get_pixel, Image};

verus! {

/// Whether a number is the smallest power of two that is at least `n`.
pub open spec fn is_next_power(n: int, r: int) -> bool {
    &&& exists|k: nat| #[trigger] pow2(k) == r
    &&& n <= r
    &&& r == 1 || r < 2 * n
}

/// The smallest power of two that is at least `n`.
pub fn next_pow2(n: u32) -> (r: u32)
    requires
        0 < n <= 0x8000_0000,
    ensures
        is_next_power(n as int, r as int),
{
    let mut r: u32 = 1;
    let ghost mut k: nat = 0;
    proof {
        vstd::arithmetic::power2::lemma2_to64();
        assert(pow2(0) == 1);
    }
    while r < n
        invariant
            0 < n <= 0x8000_0000,
            pow2(k) == r,
            r == 1 || r < 2 * n,
            1 <= r <= 0x8000_0000,
        decreases 0x8000_0000 - r,
    {
        proof {
            lemma_pow2_unfold(k + 1);
            lemma_powers_below(k);
            k = k + 1;
        }
        r = r * 2;
    }
    r
}

/// A power of two that is less than the 31st is at most half of it.
proof fn lemma_powers_below(k: nat)
    ensures
        pow2(k) < 0x8000_0000 ==> 2 * pow2(k) <= 0x8000_0000,
{
    vstd::arithmetic::power2::lemma2_to64();
    if k >= 31 {
        if k > 31 {
            vstd::arithmetic::power2::lemma_pow2_strictly_increases(31, k);
        }
    } else {
        vstd::arithmetic::power2::lemma_pow2_unfold(k + 1);
        if k < 30 {
            vstd::arithmetic::power2::lemma_pow2_strictly_increases(k + 1, 31);
        }
    }
}

/// The part of a frame that is searched, as left, top, width and height: the
/// whole frame, or what the frame has of the given region.
pub open spec fn search_window(
    width: int,
    height: int,
    roi: Option<(u32, u32, u32, u32)>,
) -> (int, int, int, int) {
    match roi {
        None => (0, 0, width, height),
        Some((x, y, w, h)) => (x as int, y as int, shorter(w as int, width - x), shorter(h as int, height - y)),
    }
}

/// The length of what there is of a stretch of `wanted` when only `there` is
/// left, which may be nothing.
pub open spec fn shorter(wanted: int, there: int) -> int {
    if there < 0 {
        0
    } else if wanted < there {
        wanted
    } else {
        there
    }
}

/// How a search is laid out: the part of the frame that is searched, the size
/// of the picture, and the size of the grid of the transform.
#[derive(Debug, Clone, Copy, PartialEq, Eq)]
pub struct NccPlan {
    pub left: u32,
    pub top: u32,
    pub width: u32,
    pub height: u32,
    pub tw: u32,
    pub th: u32,
    pub rows: u32,
    pub cols: u32,
}

impl NccPlan {
    /// The picture fits into the part that is searched, and the grid has room
    /// for both together.
    pub open spec fn wf(self) -> bool {
        &&& 0 < self.tw <= self.width
        &&& 0 < self.th <= self.height
        &&& self.width + self.tw - 1 <= self.cols
        &&& self.height + self.th - 1 <= self.rows
        &&& self.width * self.height <= u32::MAX
        &&& self.left + self.width <= u32::MAX
        &&& self.top + self.height <= u32::MAX
    }

    /// The number of columns in which the picture can lie.
    pub open spec fn places_wide(self) -> int {
        self.width - self.tw + 1
    }

    /// The number of rows in which the picture can lie.
    pub open spec fn places_high(self) -> int {
        self.height - self.th + 1
    }

    /// Lays a search out, unless the picture is larger than the part that is
    /// searched.
    pub fn new(
        width: u32,
        height: u32,
        tw: u32,
        th: u32,
        roi: Option<(u32, u32, u32, u32)>,
    ) -> (r: Option<Self>)
        requires
            ({
                let (x, y, w, h) = search_window(width as int, height as int, roi);
                w >= tw && h >= th ==> tw > 0 && th > 0 && w * h <= u32::MAX && w + tw - 1
                    <= 0x8000_0000 && h + th - 1 <= 0x8000_0000
            }),
        ensures
            ({
                let (x, y, w, h) = search_window(width as int, height as int, roi);
                match r {
                    None => w < tw || h < th,
                    Some(p) => {
                        &&& p.wf()
                        &&& (p.left, p.top, p.width, p.height) == (
                            x as u32,
                            y as u32,
                            w as u32,
                            h as u32,
                        )
                        &&& p.left + p.width <= width
                        &&& p.top + p.height <= height
                        &&& p.tw == tw
                        &&& p.th == th
                        &&& is_next_power(w + tw - 1, p.cols as int)
                        &&& is_next_power(h + th - 1, p.rows as int)
                    },
                }
            }),
    {
        let (x, y, w, h): (u32, u32, u32, u32) = match roi {
            None => (0, 0, width, height),
            Some((x, y, w, h)) => {
                let right: u32 = if x < width {
                    width - x
                } else {
                    0
                };
                let below: u32 = if y < height {
                    height - y
                } else {
                    0
                };
                (
                    x,
                    y,
                    if w < right {
                        w
                    } else {
                        right
                    },
                    if h < below {
                        h
                    } else {
                        below
                    },
                )
            },
        };
        assert(search_window(width as int, height as int, roi) == (
            x as int,
            y as int,
            w as int,
            h as int,
        ));
        if w < tw || h < th {
            return None;
        }
        let cols: u32 = next_pow2(w + (tw - 1));
        let rows: u32 = next_pow2(h + (th - 1));
        Some(NccPlan { left: x, top: y, width: w, height: h, tw, th, rows, cols })
    }
}

/// The sum of the three channels of a pixel.
pub open spec fn brightness(img: Image, x: int, y: int) -> int {
    img.channel(x, y, 0) + img.channel(x, y, 1) + img.channel(x, y, 2)
}

/// The sums of the channels in the part that is searched, row by row.
pub open spec fn window_of(img: Image, p: NccPlan) -> Seq<u16> {
    Seq::new(
        (p.width * p.height) as nat,
        |k: int|
            brightness(img, p.left + column(p.width as int, k), p.top + row(p.width as int, k)) as u16,
    )
}

/// The sums of the channels in the part that is searched, row by row.
pub fn window_sums(img: &Image, p: &NccPlan) -> (r: Vec<u16>)
    requires
        img.wf(),
        p.wf(),
        p.left + p.width <= img.width,
        p.top + p.height <= img.height,
    ensures
        r@ == window_of(*img, *p),
{
    let mut r: Vec<u16> = Vec::new();
    let ghost all = window_of(*img, *p);
    let mut j: u32 = 0;
    assert(0 * p.width == 0) by (nonlinear_arith);
    while j < p.height
        invariant
            img.wf(),
            p.wf(),
            p.left + p.width <= img.width,
            p.top + p.height <= img.height,
            j <= p.height,
            all == window_of(*img, *p),
            r@.len() == j * p.width,
            forall|k: int| 0 <= k < r@.len() ==> (#[trigger] r@[k]) == all[k],
            all.len() == p.width * p.height,
            j * p.width <= p.width * p.height,
        decreases p.height - j,
    {
        let mut i: u32 = 0;
        while i < p.width
            invariant
                img.wf(),
                p.wf(),
                p.left + p.width <= img.width,
                p.top + p.height <= img.height,
                j < p.height,
                i <= p.width,
                all == window_of(*img, *p),
                all.len() == p.width * p.height,
                r@.len() == j * p.width + i,
                forall|k: int| 0 <= k < r@.len() ==> (#[trigger] r@[k]) == all[k],
            decreases p.width - i,
        {
            let px: [u8; 3] = get_pixel(img, p.left + i, p.top + j);
            let sum: u16 = px[0] as u16 + px[1] as u16 + px[2] as u16;
            proof {
                lemma_cell(p.width as int, p.height as int, i as int, j as int);
                assert(all[cell(p.width as int, i as int, j as int)] == sum);
            }
            r.push(sum);
            i += 1;
        }
        proof {
            lemma_cell(p.width as int, p.height as int, 0, j as int);
        }
        j += 1;
    }
    proof {
        assert(p.height * p.width == p.width * p.height) by (nonlinear_arith);
        assert(r@ =~= all);
    }
    r
}

/// The numbers of a grid of `w` by `h` in the corner of a larger grid, with
/// zeros around them.
pub open spec fn padded(data: Seq<u64>, w: int, h: int, cols: int, rows: int) -> Seq<u64> {
    Seq::new(
        (cols * rows) as nat,
        |k: int|
            {
                let x = column(cols, k);
                let y = row(cols, k);
                if x < w && y < h {
                    data[cell(w, x, y)]
                } else {
                    0
                }
            },
    )
}

/// A grid of `w` by `h`, turned by half a turn.
pub open spec fn turned(data: Seq<u64>, w: int, h: int) -> Seq<u64> {
    Seq::new(
        (w * h) as nat,
        |k: int| data[cell(w, w - 1 - column(w, k), h - 1 - row(w, k))],
    )
}

/// Lays a grid of numbers out for the transform, as it is or turned by half a
/// turn.
pub fn lay_out(data: &Vec<u64>, w: u32, h: u32, cols: u32, rows: u32, turn: bool) -> (r: Vec<u64>)
    requires
        data@.len() == w * h,
        w <= cols,
        h <= rows,
    ensures
        r@ == padded(
            if turn {
                turned(data@, w as int, h as int)
            } else {
                data@
            },
            w as int,
            h as int,
            cols as int,
            rows as int,
        ),
{
    let ghost src = if turn {
        turned(data@, w as int, h as int)
    } else {
        data@
    };
    let ghost all = padded(src, w as int, h as int, cols as int, rows as int);
    let mut r: Vec<u64> = Vec::new();
    let mut j: u32 = 0;
    assert(0 * cols == 0) by (nonlinear_arith);
    assert(cols * rows >= 0) by (nonlinear_arith);
    assert(data.len() == data@.len());
    while j < rows
        invariant
            data@.len() == w * h,
            data@.len() <= usize::MAX,
            w <= cols,
            h <= rows,
            j <= rows,
            src == (if turn {
                turned(data@, w as int, h as int)
            } else {
                data@
            }),
            all == padded(src, w as int, h as int, cols as int, rows as int),
            all.len() == cols * rows,
            r@.len() == j * cols,
            forall|k: int| 0 <= k < r@.len() ==> (#[trigger] r@[k]) == all[k],
        decreases rows - j,
    {
        let mut i: u32 = 0;
        while i < cols
            invariant
                data@.len() == w * h,
                data@.len() <= usize::MAX,
                w <= cols,
                h <= rows,
                j < rows,
                i <= cols,
                src == (if turn {
                    turned(data@, w as int, h as int)
                } else {
                    data@
                }),
                all == padded(src, w as int, h as int, cols as int, rows as int),
                all.len() == cols * rows,
                r@.len() == j * cols + i,
                forall|k: int| 0 <= k < r@.len() ==> (#[trigger] r@[k]) == all[k],
            decreases cols - i,
        {
            proof {
                lemma_cell(cols as int, rows as int, i as int, j as int);
            }
            let mut v: u64 = 0;
            if i < w && j < h {
                let x: u32 = if turn {
                    w - 1 - i
                } else {
                    i
                };
                let y: u32 = if turn {
                    h - 1 - j
                } else {
                    j
                };
                proof {
                    lemma_cell(w as int, h as int, i as int, j as int);
                    lemma_cell(w as int, h as int, x as int, y as int);
                }
                v = data[y as usize * w as usize + x as usize];
                assert(src[cell(w as int, i as int, j as int)] == v);
            }
            assert(all[cell(cols as int, i as int, j as int)] == v);
            r.push(v);
            i += 1;
        }
        proof {
            assert((j + 1) * cols == j * cols + cols) by (nonlinear_arith);
        }
        j += 1;
    }
    proof {
        assert(rows * cols == cols * rows) by (nonlinear_arith);
        assert(r@ =~= all);
    }
    r
}

/// The keys of the correlation at the places where the picture can lie, row by
/// row.
pub open spec fn place_keys(a: Seq<u64>, p: NccPlan) -> Seq<Option<i64>> {
    Seq::new(
        (p.places_wide() * p.places_high()) as nat,
        |k: int|
            double_key(
                a[cell(
                    p.cols as int,
                    column(p.places_wide(), k) + p.tw - 1,
                    row(p.places_wide(), k) + p.th - 1,
                )],
            ),
    )
}

/// The best place of a picture: the middle of the picture there, and where in
/// the correlation its likeness stands.
#[derive(Debug, Clone, Copy, PartialEq, Eq)]
pub struct Peak {
    pub x: u32,
    pub y: u32,
    pub at: Option<usize>,
}

/// Whether a place is the best one: the first of those with the largest
/// likeness, or the first of all if there is no likeness.
pub open spec fn is_peak(a: Seq<u64>, p: NccPlan, r: Peak) -> bool {
    let keys = place_keys(a, p);
    exists|best: Option<usize>|
        {
            let k = match best {
                Some(k) => k as int,
                None => 0,
            };
            let x = column(p.places_wide(), k);
            let y = row(p.places_wide(), k);
            &&& #[trigger] first_largest(keys, keys.len() as int, best)
            &&& r.x == x + p.tw as int / 2 + p.left
            &&& r.y == y + p.th as int / 2 + p.top
            &&& r.at == match best {
                Some(_) => Some(cell(p.cols as int, x + p.tw - 1, y + p.th - 1) as usize),
                None => None,
            }
        }
}

/// Finds the best place of the picture in a correlation.
pub fn find_peak(a: &Vec<u64>, p: &NccPlan) -> (r: Peak)
    requires
        p.wf(),
        a@.len() == p.cols * p.rows,
    ensures
        is_peak(a@, *p, r),
{
    let ow: u32 = p.width - p.tw + 1;
    let oh: u32 = p.height - p.th + 1;
    let ghost all = place_keys(a@, *p);
    let mut keys: Vec<Option<i64>> = Vec::new();
    let mut j: u32 = 0;
    assert(a.len() == a@.len());
    assert(0 * ow == 0) by (nonlinear_arith);
    assert(ow * oh > 0) by (nonlinear_arith)
        requires
            ow > 0,
            oh > 0,
    ;
    while j < oh
        invariant
            p.wf(),
            a@.len() == p.cols * p.rows,
            a@.len() <= usize::MAX,
            ow == p.places_wide(),
            oh == p.places_high(),
            all == place_keys(a@, *p),
            all.len() == ow * oh,
            j <= oh,
            keys@.len() == j * ow,
            forall|k: int| 0 <= k < keys@.len() ==> (#[trigger] keys@[k]) == all[k],
        decreases oh - j,
    {
        let mut i: u32 = 0;
        while i < ow
            invariant
                p.wf(),
                a@.len() == p.cols * p.rows,
                a@.len() <= usize::MAX,
                ow == p.places_wide(),
                oh == p.places_high(),
                all == place_keys(a@, *p),
                all.len() == ow * oh,
                j < oh,
                i <= ow,
                keys@.len() == j * ow + i,
                forall|k: int| 0 <= k < keys@.len() ==> (#[trigger] keys@[k]) == all[k],
            decreases ow - i,
        {
            proof {
                lemma_cell(ow as int, oh as int, i as int, j as int);
                lemma_cell(p.cols as int, p.rows as int, i + p.tw - 1, j + p.th - 1);
            }
            let at: usize = (j + (p.th - 1)) as usize * p.cols as usize + (i + (p.tw - 1)) as usize;
            let key: Option<i64> = key_of_double(a[at]);
            assert(all[cell(ow as int, i as int, j as int)] == key);
            keys.push(key);
            i += 1;
        }
        proof {
            lemma_cell(ow as int, oh as int, (ow - 1) as int, j as int);
        }
        j += 1;
    }
    proof {
        assert(oh * ow == ow * oh) by (nonlinear_arith);
        assert(keys@ =~= all);
    }
    let best: Option<usize> = argmax(&keys);
    let k: usize = match best {
        Some(k) => k,
        None => 0,
    };
    proof {
        lemma_position(ow as int, oh as int, k as int);
        assert(ow <= u32::MAX);
    }
    let x: u32 = (k % (ow as usize)) as u32;
    let y: u32 = (k / (ow as usize)) as u32;
    proof {
        lemma_cell(p.cols as int, p.rows as int, x + p.tw - 1, y + p.th - 1);
    }
    let at: usize = (y + (p.th - 1)) as usize * p.cols as usize + (x + (p.tw - 1)) as usize;
    let r = Peak {
        x: x + p.tw / 2 + p.left,
        y: y + p.th / 2 + p.top,
        at: match best {
            Some(_) => Some(at),
            None => None,
        },
    };
    assert(first_largest(all, all.len() as int, best));
    assert(is_peak(a@, *p, r));
    r
}

/// The middle of the picture at its best place lies in the part of the frame
/// that is searched.
pub proof fn law_peak_in_window(a: Seq<u64>, p: NccPlan, r: Peak)
    requires
        p.wf(),
        is_peak(a, p, r),
    ensures
        p.left <= r.x < p.left + p.width,
        p.top <= r.y < p.top + p.height,
{
    let keys = place_keys(a, p);
    let best = choose|best: Option<usize>|
        {
            let k = match best {
                Some(k) => k as int,
                None => 0,
            };
            let x = column(p.places_wide(), k);
            let y = row(p.places_wide(), k);
            &&& #[trigger] first_largest(keys, keys.len() as int, best)
            &&& r.x == x + p.tw as int / 2 + p.left
            &&& r.y == y + p.th as int / 2 + p.top
            &&& r.at == match best {
                Some(_) => Some(cell(p.cols as int, x + p.tw - 1, y + p.th - 1) as usize),
                None => None,
            }
        };
    let k = match best {
        Some(k) => k as int,
        None => 0,
    };
    assert(p.places_wide() * p.places_high() > 0) by (nonlinear_arith)
        requires
            p.places_wide() > 0,
            p.places_high() > 0,
    ;
    lemma_position(p.places_wide(), p.places_high(), k);
}

/// A grid that is turned twice is as it was.
pub proof fn law_turned_twice(data: Seq<u64>, w: int, h: int)
    requires
        w > 0,
        h > 0,
        data.len() == w * h,
    ensures
        turned(turned(data, w, h), w, h) == data,
{
    let once = turned(data, w, h);
    let twice = turned(once, w, h);
    assert forall|k: int| 0 <= k < data.len() implies twice[k] == data[k] by {
        lemma_position(w, h, k);
        let x = column(w, k);
        let y = row(w, k);
        lemma_cell(w, h, w - 1 - x, h - 1 - y);
        lemma_cell(w, h, x, y);
    }
    assert(twice =~= data);
}

// ---------------------------------------------------------------------------
// Laws of the layout
// ---------------------------------------------------------------------------

/// The grid has the smallest power of two that is large enough.
pub proof fn law_smallest_power(n: int, r: int, k: nat)
    requires
        is_next_power(n, r),
        pow2(k) >= n,
        n > 0,
    ensures
        n <= r <= pow2(k),
{
    let j = choose|j: nat| #[trigger] pow2(j) == r;
    if k < j {
        vstd::arithmetic::power2::lemma_pow2_strictly_increases(k, j);
        lemma_pow2_unfold(j);
        if k < j - 1 {
            vstd::arithmetic::power2::lemma_pow2_strictly_increases(k, (j - 1) as nat);
        }
        vstd::arithmetic::power2::lemma_pow2_pos(k);
    } else if j < k {
        vstd::arithmetic::power2::lemma_pow2_strictly_increases(j, k);
    }
}

/// The whole frame is searched unless a region is given; of a region that part is
/// searched which lies in the frame.
pub proof fn law_window_of_a_search(width: int, height: int, x: u32, y: u32, w: u32, h: u32)
    requires
        0 <= width,
        0 <= height,
    ensures
        search_window(width, height, None) == (0int, 0int, width, height),
        ({
            let (left, top, wide, high) = search_window(width, height, Some((x, y, w, h)));
            &&& left == x && top == y
            &&& 0 <= wide <= w && 0 <= high <= h
            &&& x + w <= width ==> wide == w
            &&& y + h <= height ==> high == h
            &&& x <= width && x + w > width ==> x + wide == width
            &&& y <= height && y + h > height ==> y + high == height
            &&& x > width ==> wide == 0
            &&& y > height ==> high == 0
        }),
{
}

/// The part that is searched is read row by row, each pixel as the sum of its three
/// bytes.
pub proof fn law_window_by_bytes(img: Image, p: NccPlan, i: int, j: int)
    requires
        0 <= i < p.width,
        0 <= j < p.height,
    ensures
        window_of(img, p).len() == p.width * p.height,
        ({
            let at = 3 * ((p.top + j) * img.width + (p.left + i));
            window_of(img, p)[j * p.width + i] == img.data@[at] + img.data@[at + 1] + img.data@[at
                + 2]
        }),
{
    lemma_cell(p.width as int, p.height as int, i, j);
}

/// A grid in the corner of a larger one keeps its numbers, and there are zeros
/// everywhere else.
pub proof fn law_grid_in_the_corner(
    data: Seq<u64>,
    w: int,
    h: int,
    cols: int,
    rows: int,
    x: int,
    y: int,
)
    requires
        0 <= x < cols,
        0 <= y < rows,
    ensures
        padded(data, w, h, cols, rows).len() == cols * rows,
        x < w && y < h ==> padded(data, w, h, cols, rows)[y * cols + x] == data[y * w + x],
        x >= w || y >= h ==> padded(data, w, h, cols, rows)[y * cols + x] == 0,
{
    lemma_cell(cols, rows, x, y);
}

/// A grid that is turned has its first number last, and every other one at the
/// opposite place too.
pub proof fn law_turned_by_half(data: Seq<u64>, w: int, h: int, x: int, y: int)
    requires
        0 <= x < w,
        0 <= y < h,
    ensures
        turned(data, w, h).len() == w * h,
        turned(data, w, h)[y * w + x] == data[(h - 1 - y) * w + (w - 1 - x)],
{
    lemma_cell(w, h, x, y);
}

/// The best place is one where the picture fits, and at no place where it fits is
/// the likeness larger; of equal places the first in the order of the rows counts.
/// The likeness of a place stands in the correlation where the picture ends.
pub proof fn law_best_place(a: Seq<u64>, p: NccPlan, r: Peak, i: int, j: int)
    requires
        p.wf(),
        a.len() == p.cols * p.rows,
        a.len() <= usize::MAX,
        is_peak(a, p, r),
        0 <= i <= p.width - p.tw,
        0 <= j <= p.height - p.th,
        double_key(a[(j + p.th - 1) * p.cols + (i + p.tw - 1)]) is Some,
    ensures
        ({
            let (x, y) = (r.x - p.left - p.tw as int / 2, r.y - p.top - p.th as int / 2);
            let at = (y + p.th - 1) * p.cols + (x + p.tw - 1);
            let here = double_key(a[(j + p.th - 1) * p.cols + (i + p.tw - 1)])->0;
            &&& 0 <= x <= p.width - p.tw
            &&& 0 <= y <= p.height - p.th
            &&& r.at == Some(at as usize)
            &&& double_key(a[at]) matches Some(best) && here <= best
            &&& (j < y || j == y && i < x) ==> here < double_key(a[at])->0
        }),
{
    let keys = place_keys(a, p);
    let (ow, oh) = (p.places_wide(), p.places_high());
    let best = choose|best: Option<usize>|
        {
            let k = match best {
                Some(k) => k as int,
                None => 0,
            };
            let x = column(p.places_wide(), k);
            let y = row(p.places_wide(), k);
            &&& #[trigger] first_largest(keys, keys.len() as int, best)
            &&& r.x == x + p.tw as int / 2 + p.left
            &&& r.y == y + p.th as int / 2 + p.top
            &&& r.at == match best {
                Some(_) => Some(cell(p.cols as int, x + p.tw - 1, y + p.th - 1) as usize),
                None => None,
            }
        };
    lemma_cell(ow, oh, i, j);
    let here = cell(ow, i, j);
    assert(keys[here] == double_key(a[cell(p.cols as int, i + p.tw - 1, j + p.th - 1)]));
    assert(best is Some);
    let k = best->0 as int;
    lemma_position(ow, oh, k);
    let (x, y) = (column(ow, k), row(ow, k));
    assert(keys[k] == double_key(a[cell(p.cols as int, x + p.tw - 1, y + p.th - 1)]));
    lemma_cell(p.cols as int, p.rows as int, x + p.tw - 1, y + p.th - 1);
    if j < y || j == y && i < x {
        if j < y {
            assert(j * ow + i < y * ow + x) by (nonlinear_arith)
                requires
                    j < y,
                    0 <= i < ow,
                    0 <= x,
            ;
        }
        assert(here < k);
    }
}

} // verus!
