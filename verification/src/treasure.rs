//! Finding the treasure marker on a frame: the pixels of its colour, the
//! blobs that they form and the shape that a blob must have.

use crate::components::{is_labelling, label_components, law_labelling_unique};
use crate::grid::{column, row};
use crate::morphology::{
    bit, law_closing_keeps, law_dilation_keeps, lemma_step_at, morph, morph_at, near, set_at,
    treasure_morph,
};
use crate::vision::{fast_resize, resize_outcome, Image};
use vstd::prelude::*;
use vstd::set_lib::{lemma_int_range, set_int_range};

verus! {

/// The width of a frame on which the marker is looked for.
pub const BASE_WIDTH: usize = 1280;

/// The height of a frame on which the marker is looked for.
pub const BASE_HEIGHT: usize = 720;

/// The number of pixels of such a frame.
pub const PIXELS: usize = 921600;

/// Whether a colour is the pink of the marker: bright, with red over blue over
/// green, the saturation between 80 and 210 of 255 and the hue between 310
/// and 352 degrees. In the range left by the first tests the saturation is
/// `255 * (r - g) / r` and the hue `360 - 60 * (b - g) / (r - g)`.
pub open spec fn marker_colour(r: u8, g: u8, b: u8) -> bool {
    &&& r >= 150
    &&& r > b + 20
    &&& b > g + 20
    &&& 80 * r <= 255 * (r - g) <= 210 * r
    &&& 60 * (b - g) <= (360 - 310) * (r - g)
    &&& 60 * (b - g) >= (360 - 352) * (r - g)
}

/// Whether a colour is the pink of the marker.
pub fn is_marker_colour(r: u8, g: u8, b: u8) -> (yes: bool)
    ensures
        yes == marker_colour(r, g, b),
{
    let r: i32 = r as i32;
    let g: i32 = g as i32;
    let b: i32 = b as i32;
    if r >= 150 && r > b + 20 && b > g + 20 {
        let d: i32 = r - g;
        80 * r <= 255 * d && 255 * d <= 210 * r && 60 * (b - g) <= 50 * d && 60 * (b - g) >= 8 * d
    } else {
        false
    }
}

/// The pixels of the marker's colour.
pub open spec fn raw_mask(px: Seq<u8>) -> Seq<u8> {
    Seq::new(
        PIXELS as nat,
        |i: int| bit(marker_colour(px[3 * i], px[3 * i + 1], px[3 * i + 2])),
    )
}

/// The area in which pixels of the colour count as one blob: gaps are closed,
/// and the rim is widened.
pub open spec fn blob_mask(raw: Seq<u8>) -> Seq<u8> {
    let w = BASE_WIDTH as int;
    let h = BASE_HEIGHT as int;
    morph(morph(morph(raw, w, h, 6, true), w, h, 6, false), w, h, 3, true)
}

/// Every pixel of the colour lies in the area of a blob.
pub proof fn law_blobs_cover_colour(px: Seq<u8>, i: int)
    requires
        0 <= i < PIXELS,
        raw_mask(px)[i] != 0,
    ensures
        blob_mask(raw_mask(px))[i] != 0,
{
    let w = BASE_WIDTH as int;
    let h = BASE_HEIGHT as int;
    let raw = raw_mask(px);
    law_closing_keeps(raw, w, h, 6, i);
    law_dilation_keeps(morph(morph(raw, w, h, 6, true), w, h, 6, false), w, h, 3, i);
}

/// What is measured of the coloured pixels of one blob. The four positions are
/// extreme pixels; they mean nothing when there is no pixel.
#[derive(Clone, Copy)]
pub struct Blob {
    pub count: u32,
    pub red: u64,
    pub green: u64,
    pub blue: u64,
    pub top: usize,
    pub bottom: usize,
    pub left: usize,
    pub right: usize,
}

/// Whether `i`, before `n`, is a coloured pixel of blob `l`.
pub open spec fn in_blob(raw: Seq<u8>, labels: Seq<u32>, l: u32, n: int, i: int) -> bool {
    0 <= i < n && raw[i] != 0 && labels[i] == l
}

/// How many of the first `n` pixels are coloured pixels of blob `l`.
pub open spec fn blob_count(raw: Seq<u8>, labels: Seq<u32>, l: u32, n: int) -> nat
    decreases n,
{
    if n <= 0 {
        0
    } else {
        blob_count(raw, labels, l, n - 1) + if in_blob(raw, labels, l, n, n - 1) {
            1nat
        } else {
            0nat
        }
    }
}

/// The sum of one channel over the coloured pixels of blob `l` among the first
/// `n`.
pub open spec fn blob_sum(
    px: Seq<u8>,
    raw: Seq<u8>,
    labels: Seq<u32>,
    l: u32,
    c: int,
    n: int,
) -> nat
    decreases n,
{
    if n <= 0 {
        0
    } else {
        blob_sum(px, raw, labels, l, c, n - 1) + if in_blob(raw, labels, l, n, n - 1) {
            px[3 * (n - 1) + c] as nat
        } else {
            0nat
        }
    }
}

/// Which of two pixels is further in a direction; of two equally far ones the
/// first counts.
pub open spec fn further_up(a: int, b: int) -> bool {
    a <= b
}

pub open spec fn further_down(a: int, b: int) -> bool {
    let w = BASE_WIDTH as int;
    row(w, a) > row(w, b) || row(w, a) == row(w, b) && a <= b
}

pub open spec fn further_left(a: int, b: int) -> bool {
    let w = BASE_WIDTH as int;
    column(w, a) < column(w, b) || column(w, a) == column(w, b) && a <= b
}

pub open spec fn further_right(a: int, b: int) -> bool {
    let w = BASE_WIDTH as int;
    column(w, a) > column(w, b) || column(w, a) == column(w, b) && a <= b
}

/// `b` measures the coloured pixels of blob `l` among the first `n`.
pub open spec fn measures(
    px: Seq<u8>,
    raw: Seq<u8>,
    labels: Seq<u32>,
    l: u32,
    n: int,
    b: Blob,
) -> bool {
    &&& b.count == blob_count(raw, labels, l, n)
    &&& b.red == blob_sum(px, raw, labels, l, 0, n)
    &&& b.green == blob_sum(px, raw, labels, l, 1, n)
    &&& b.blue == blob_sum(px, raw, labels, l, 2, n)
    &&& b.count > 0 ==> {
        &&& in_blob(raw, labels, l, n, b.top as int)
        &&& in_blob(raw, labels, l, n, b.bottom as int)
        &&& in_blob(raw, labels, l, n, b.left as int)
        &&& in_blob(raw, labels, l, n, b.right as int)
        &&& forall|i: int| #[trigger]
            in_blob(raw, labels, l, n, i) ==> further_up(b.top as int, i) && further_down(
                b.bottom as int,
                i,
            ) && further_left(b.left as int, i) && further_right(b.right as int, i)
    }
}

proof fn lemma_blob_bounds(px: Seq<u8>, raw: Seq<u8>, labels: Seq<u32>, l: u32, c: int, n: int)
    requires
        0 <= n,
    ensures
        blob_count(raw, labels, l, n) <= n,
        blob_sum(px, raw, labels, l, c, n) <= 255 * n,
    decreases n,
{
    if n > 0 {
        lemma_blob_bounds(px, raw, labels, l, c, n - 1);
    }
}

proof fn lemma_blob_empty(raw: Seq<u8>, labels: Seq<u32>, l: u32, n: int)
    requires
        blob_count(raw, labels, l, n) == 0,
    ensures
        forall|i: int| !#[trigger] in_blob(raw, labels, l, n, i),
    decreases n,
{
    if n > 0 {
        lemma_blob_empty(raw, labels, l, n - 1);
        assert forall|i: int| !#[trigger] in_blob(raw, labels, l, n, i) by {
            assert(!in_blob(raw, labels, l, n - 1, i));
        }
    }
}

/// The measures after one more pixel of the blob.
fn add_pixel(
    px: &[u8],
    i: usize,
    b: Blob,
    Ghost(raw): Ghost<Seq<u8>>,
    Ghost(labels): Ghost<Seq<u32>>,
    Ghost(l): Ghost<u32>,
) -> (r: Blob)
    requires
        i < PIXELS,
        px@.len() >= 3 * PIXELS,
        measures(px@, raw, labels, l, i as int, b),
        in_blob(raw, labels, l, i + 1, i as int),
    ensures
        measures(px@, raw, labels, l, i + 1, r),
{
    proof {
        lemma_blob_bounds(px@, raw, labels, l, 0, i as int);
        lemma_blob_bounds(px@, raw, labels, l, 1, i as int);
        lemma_blob_bounds(px@, raw, labels, l, 2, i as int);
    }
    let o: usize = i * 3;
    let mut r: Blob = b;
    r.count = b.count + 1;
    r.red = b.red + px[o] as u64;
    r.green = b.green + px[o + 1] as u64;
    r.blue = b.blue + px[o + 2] as u64;
    if b.count == 0 {
        r.top = i;
        r.bottom = i;
        r.left = i;
        r.right = i;
        proof {
            lemma_blob_empty(raw, labels, l, i as int);
            assert forall|k: int| #[trigger] in_blob(raw, labels, l, i + 1, k) implies k == i by {
                assert(!in_blob(raw, labels, l, i as int, k));
            }
        }
    } else {
        let x: usize = i % BASE_WIDTH;
        let y: usize = i / BASE_WIDTH;
        if y > b.bottom / BASE_WIDTH {
            r.bottom = i;
        }
        if x < b.left % BASE_WIDTH {
            r.left = i;
        }
        if x > b.right % BASE_WIDTH {
            r.right = i;
        }
        proof {
            assert forall|k: int| #[trigger] in_blob(raw, labels, l, i + 1, k) implies further_up(
                r.top as int,
                k,
            ) && further_down(r.bottom as int, k) && further_left(r.left as int, k)
                && further_right(r.right as int, k) by {
                assert(in_blob(raw, labels, l, i as int, b.bottom as int));
                if k != i {
                    assert(in_blob(raw, labels, l, i as int, k));
                }
            }
        }
    }
    r
}

/// Measures every blob.
fn measure_blobs(px: &[u8], raw: &[u8], labels: &[u32], blobs: usize) -> (r: Vec<Blob>)
    requires
        px@.len() >= 3 * PIXELS,
        raw@.len() == PIXELS,
        labels@.len() == PIXELS,
        blobs > 0,
        forall|i: int| 0 <= i < PIXELS ==> (#[trigger] labels@[i]) < blobs,
    ensures
        r@.len() == blobs,
        forall|l: u32|
            0 < l < blobs ==> measures(
                px@,
                raw@,
                labels@,
                l,
                PIXELS as int,
                #[trigger] r@[l as int],
            ),
{
    let none: Blob = Blob {
        count: 0,
        red: 0,
        green: 0,
        blue: 0,
        top: 0,
        bottom: 0,
        left: 0,
        right: 0,
    };
    let mut r: Vec<Blob> = Vec::new();
    while r.len() < blobs
        invariant
            r@.len() <= blobs,
            forall|k: int| 0 <= k < r@.len() ==> (#[trigger] r@[k]) == none,
        decreases blobs - r.len(),
    {
        r.push(none);
    }
    assert forall|l: u32| 0 < l < blobs implies measures(
        px@,
        raw@,
        labels@,
        l,
        0,
        #[trigger] r@[l as int],
    ) by {
        assert(none.count == 0);
    }
    let mut i: usize = 0;
    while i < PIXELS
        invariant
            i <= PIXELS,
            px@.len() >= 3 * PIXELS,
            raw@.len() == PIXELS,
            labels@.len() == PIXELS,
            r@.len() == blobs,
            forall|k: int| 0 <= k < PIXELS ==> (#[trigger] labels@[k]) < blobs,
            forall|l: u32|
                0 < l < blobs ==> measures(
                    px@,
                    raw@,
                    labels@,
                    l,
                    i as int,
                    #[trigger] r@[l as int],
                ),
        decreases PIXELS - i,
    {
        let ghost before = r@;
        let l: u32 = labels[i];
        if raw[i] != 0 && l != 0 {
            let b: Blob = r[l as usize];
            assert(measures(px@, raw@, labels@, l, i as int, before[l as int]));
            assert(in_blob(raw@, labels@, l, i + 1, i as int));
            let grown: Blob = add_pixel(px, i, b, Ghost(raw@), Ghost(labels@), Ghost(l));
            r.set(l as usize, grown);
        }
        proof {
            assert forall|m: u32| 0 < m < blobs implies measures(
                px@,
                raw@,
                labels@,
                m,
                i + 1,
                #[trigger] r@[m as int],
            ) by {
                if m != l || raw@[i as int] == 0 {
                    assert(r@[m as int] == before[m as int]);
                    lemma_pixel_elsewhere(px@, raw@, labels@, m, i as int, before[m as int]);
                }
            }
        }
        i += 1;
    }
    r
}

/// A pixel outside a blob changes none of its measures.
proof fn lemma_pixel_elsewhere(
    px: Seq<u8>,
    raw: Seq<u8>,
    labels: Seq<u32>,
    l: u32,
    i: int,
    b: Blob,
)
    requires
        0 <= i,
        measures(px, raw, labels, l, i, b),
        raw[i] == 0 || labels[i] != l,
    ensures
        measures(px, raw, labels, l, i + 1, b),
{
    assert forall|k: int|
        in_blob(raw, labels, l, i + 1, k) == #[trigger] in_blob(raw, labels, l, i, k) by {}
    assert forall|k: int| #[trigger] in_blob(raw, labels, l, i + 1, k) implies in_blob(
        raw,
        labels,
        l,
        i,
        k,
    ) by {}
}

/// A blob in the shape of the marker: its centre and what its score is made
/// of.
#[derive(Clone, Copy, PartialEq, Eq, Structural, Debug)]
pub struct Candidate {
    /// The column of the centre.
    pub cx: i64,
    /// The row of the centre.
    pub cy: i64,
    /// In how many of the four directions the rim is dark.
    pub hits: u32,
    /// By how much width and height differ.
    pub wh: i32,
    /// By how much the columns of the topmost and the lowest pixel differ.
    pub align_x: i32,
    /// The number of coloured pixels, and the sum of each channel over them.
    pub count: u32,
    pub red: u64,
    pub green: u64,
    pub blue: u64,
}

/// Whether there is a pixel at `(x, y)` and it is nearly black.
pub open spec fn dark(px: Seq<u8>, x: int, y: int) -> bool {
    &&& 0 <= x < BASE_WIDTH
    &&& 0 <= y < BASE_HEIGHT
    &&& px[3 * (y * BASE_WIDTH + x)] < 50
    &&& px[3 * (y * BASE_WIDTH + x) + 1] < 50
    &&& px[3 * (y * BASE_WIDTH + x) + 2] < 50
}

/// 1 if one of the next two pixels in direction `(dx, dy)` is dark.
pub open spec fn rim(px: Seq<u8>, x: int, y: int, dx: int, dy: int) -> int {
    if dark(px, x + dx, y + dy) || dark(px, x + 2 * dx, y + 2 * dy) {
        1
    } else {
        0
    }
}

/// The distance of two numbers.
pub open spec fn distance(a: int, b: int) -> int {
    if a >= b {
        a - b
    } else {
        b - a
    }
}

/// Whether a blob of the given area and measures has the marker's shape: a
/// diamond of 14 to 32 pixels, about as wide as high, with its corners facing
/// each other.
pub open spec fn marker_shape(area: u32, b: Blob) -> bool {
    let w = BASE_WIDTH as int;
    let width = column(w, b.right as int) - column(w, b.left as int) + 1;
    let height = row(w, b.bottom as int) - row(w, b.top as int) + 1;
    &&& 120 <= area <= 1200
    &&& b.count >= 8
    &&& 14 <= width <= 32
    &&& 14 <= height <= 32
    &&& distance(column(w, b.top as int), column(w, b.bottom as int)) <= 4
    &&& distance(row(w, b.left as int), row(w, b.right as int)) <= 4
    &&& distance(width, height) <= 3
}

/// What a blob of the marker's shape is reported as.
pub open spec fn candidate_of(px: Seq<u8>, b: Blob) -> Candidate {
    let w = BASE_WIDTH as int;
    let width = column(w, b.right as int) - column(w, b.left as int) + 1;
    let height = row(w, b.bottom as int) - row(w, b.top as int) + 1;
    Candidate {
        cx: ((column(w, b.left as int) + column(w, b.right as int)) / 2) as i64,
        cy: ((row(w, b.top as int) + row(w, b.bottom as int)) / 2) as i64,
        hits: (rim(px, column(w, b.top as int), row(w, b.top as int), 0, -1) + rim(
            px,
            column(w, b.bottom as int),
            row(w, b.bottom as int),
            0,
            1,
        ) + rim(px, column(w, b.left as int), row(w, b.left as int), -1, 0) + rim(
            px,
            column(w, b.right as int),
            row(w, b.right as int),
            1,
            0,
        )) as u32,
        wh: distance(width, height) as i32,
        align_x: distance(column(w, b.top as int), column(w, b.bottom as int)) as i32,
        count: b.count,
        red: b.red,
        green: b.green,
        blue: b.blue,
    }
}

/// The candidates among the blobs with labels below `n`, in the order of their
/// labels.
pub open spec fn candidates_below(
    px: Seq<u8>,
    areas: Seq<u32>,
    blobs: Seq<Blob>,
    n: int,
) -> Seq<Candidate>
    decreases n,
{
    if n <= 1 {
        Seq::empty()
    } else {
        let rest = candidates_below(px, areas, blobs, n - 1);
        if marker_shape(areas[n - 1], blobs[n - 1]) {
            rest.push(candidate_of(px, blobs[n - 1]))
        } else {
            rest
        }
    }
}

/// `list` holds the candidates of a frame: its coloured pixels are grouped by
/// the components of the blob mask, each group is measured, and those of the
/// marker's shape are listed in the order in which they are met.
pub open spec fn lists_candidates(px: Seq<u8>, list: Seq<Candidate>) -> bool {
    exists|labels: Seq<u32>, areas: Seq<u32>, blobs: Seq<Blob>| #[trigger]
        lists_by(px, labels, areas, blobs, list)
}

/// The same with the labels, areas and measures at hand.
pub open spec fn lists_by(
    px: Seq<u8>,
    labels: Seq<u32>,
    areas: Seq<u32>,
    blobs: Seq<Blob>,
    list: Seq<Candidate>,
) -> bool {
    let raw = raw_mask(px);
    &&& is_labelling(blob_mask(raw), BASE_WIDTH as int, labels, areas)
    &&& blobs.len() == areas.len()
    &&& forall|l: u32|
        0 < l < areas.len() ==> measures(
            px,
            raw,
            labels,
            l,
            PIXELS as int,
            #[trigger] blobs[l as int],
        )
    &&& list == candidates_below(px, areas, blobs, areas.len() as int)
}

/// Whether there is a pixel at `(x, y)` and it is nearly black.
fn is_dark(px: &[u8], x: i32, y: i32) -> (yes: bool)
    requires
        px@.len() >= 3 * PIXELS,
    ensures
        yes == dark(px@, x as int, y as int),
{
    if x >= 0 && y >= 0 && x < 1280 && y < 720 {
        let o: usize = (y as usize * BASE_WIDTH + x as usize) * 3;
        px[o] < 50 && px[o + 1] < 50 && px[o + 2] < 50
    } else {
        false
    }
}

/// 1 if one of the next two pixels in direction `(dx, dy)` is dark.
fn rim_hit(px: &[u8], x: i32, y: i32, dx: i32, dy: i32) -> (hit: u32)
    requires
        px@.len() >= 3 * PIXELS,
        0 <= x < 1280,
        0 <= y < 720,
        -1 <= dx <= 1,
        -1 <= dy <= 1,
    ensures
        hit == rim(px@, x as int, y as int, dx as int, dy as int),
{
    if is_dark(px, x + dx, y + dy) || is_dark(px, x + 2 * dx, y + 2 * dy) {
        1
    } else {
        0
    }
}

fn distance_of(a: i32, b: i32) -> (d: i32)
    requires
        -2000 <= a <= 2000,
        -2000 <= b <= 2000,
    ensures
        d == distance(a as int, b as int),
{
    if a >= b {
        a - b
    } else {
        b - a
    }
}

/// The candidate that a blob is, if it has the marker's shape.
fn candidate(px: &[u8], area: u32, b: &Blob) -> (c: Option<Candidate>)
    requires
        px@.len() >= 3 * PIXELS,
        b.count > 0 ==> b.top < PIXELS && b.bottom < PIXELS && b.left < PIXELS && b.right
            < PIXELS,
    ensures
        c == if marker_shape(area, *b) {
            Some(candidate_of(px@, *b))
        } else {
            None
        },
{
    if area < 120 || area > 1200 || b.count < 8 {
        return None;
    }
    let tx: i32 = (b.top % BASE_WIDTH) as i32;
    let ty: i32 = (b.top / BASE_WIDTH) as i32;
    let bx: i32 = (b.bottom % BASE_WIDTH) as i32;
    let by: i32 = (b.bottom / BASE_WIDTH) as i32;
    let lx: i32 = (b.left % BASE_WIDTH) as i32;
    let ly: i32 = (b.left / BASE_WIDTH) as i32;
    let rx: i32 = (b.right % BASE_WIDTH) as i32;
    let ry: i32 = (b.right / BASE_WIDTH) as i32;
    let width: i32 = rx - lx + 1;
    let height: i32 = by - ty + 1;
    if width < 14 || width > 32 || height < 14 || height > 32 {
        return None;
    }
    let align_x: i32 = distance_of(tx, bx);
    let align_y: i32 = distance_of(ly, ry);
    let wh: i32 = distance_of(width, height);
    if align_x > 4 || align_y > 4 || wh > 3 {
        return None;
    }
    let hits: u32 = rim_hit(px, tx, ty, 0, -1) + rim_hit(px, bx, by, 0, 1) + rim_hit(
        px,
        lx,
        ly,
        -1,
        0,
    ) + rim_hit(px, rx, ry, 1, 0);
    Some(
        Candidate {
            cx: ((lx + rx) / 2) as i64,
            cy: ((ty + by) / 2) as i64,
            hits,
            wh,
            align_x,
            count: b.count,
            red: b.red,
            green: b.green,
            blue: b.blue,
        },
    )
}

/// The pixels of the marker's colour.
fn colour_mask(px: &[u8]) -> (raw: Vec<u8>)
    requires
        px@.len() >= 3 * PIXELS,
    ensures
        raw@ == raw_mask(px@),
{
    let mut raw: Vec<u8> = Vec::new();
    let mut i: usize = 0;
    while i < PIXELS
        invariant
            i <= PIXELS,
            px@.len() >= 3 * PIXELS,
            raw@.len() == i,
            forall|k: int| 0 <= k < i ==> #[trigger] raw@[k] == raw_mask(px@)[k],
        decreases PIXELS - i,
    {
        if is_marker_colour(px[3 * i], px[3 * i + 1], px[3 * i + 2]) {
            raw.push(1);
        } else {
            raw.push(0);
        }
        i += 1;
    }
    assert(raw@ =~= raw_mask(px@));
    raw
}

/// A mask with nothing set.
fn clear_mask() -> (m: Vec<u8>)
    ensures
        m@.len() == PIXELS,
{
    let mut m: Vec<u8> = Vec::new();
    while m.len() < PIXELS
        invariant
            m@.len() <= PIXELS,
        decreases PIXELS - m.len(),
    {
        m.push(0);
    }
    m
}

/// The area in which pixels of the colour count as one blob.
fn close_and_widen(raw: &Vec<u8>) -> (mask: Vec<u8>)
    requires
        raw@.len() == PIXELS,
    ensures
        mask@ == blob_mask(raw@),
{
    let mut mask: Vec<u8> = raw.clone();
    assert(mask@ =~= raw@);
    let mut tmp: Vec<u8> = clear_mask();
    treasure_morph(&mut mask, &mut tmp, BASE_WIDTH, BASE_HEIGHT, 6, true);
    treasure_morph(&mut mask, &mut tmp, BASE_WIDTH, BASE_HEIGHT, 6, false);
    treasure_morph(&mut mask, &mut tmp, BASE_WIDTH, BASE_HEIGHT, 3, true);
    mask
}

/// Whether a frame has the size on which the marker is looked for.
pub open spec fn base_sized(img: Image) -> bool {
    &&& img.width == BASE_WIDTH
    &&& img.height == BASE_HEIGHT
    &&& img.data@.len() >= 3 * PIXELS
}

/// Whether no pixel of the marker's colour is stored behind those of the base
/// size.
pub open spec fn clear_behind(img: Image) -> bool {
    forall|i: int|
        PIXELS <= i < img.data@.len() / 3 ==> !marker_colour(
            #[trigger] img.data@[3 * i],
            img.data@[3 * i + 1],
            img.data@[3 * i + 2],
        )
}

/// Lists what may be the treasure marker on a frame of the base size.
pub fn treasure_candidates(work: &Image) -> (list: Vec<Candidate>)
    requires
        base_sized(*work),
    ensures
        lists_candidates(work.data@, list@),
{
    let px: &[u8] = work.data.as_slice();
    let raw: Vec<u8> = colour_mask(px);
    let mask: Vec<u8> = close_and_widen(&raw);
    let labelled = label_components(mask.as_slice(), BASE_WIDTH, BASE_HEIGHT);
    let labels: Vec<u32> = labelled.0;
    let areas: Vec<u32> = labelled.1;
    assert(areas@.len() > 0 && labels@.len() == PIXELS && forall|i: int|
        0 <= i < PIXELS ==> (#[trigger] labels@[i]) < areas@.len()) by {
        reveal(is_labelling);
    }
    let n: usize = areas.len();
    let blobs: Vec<Blob> = measure_blobs(px, raw.as_slice(), labels.as_slice(), n);
    let mut list: Vec<Candidate> = Vec::new();
    let mut l: usize = 1;
    assert(n <= u32::MAX) by {
        reveal(is_labelling);
    }
    while l < n
        invariant
            1 <= l <= n,
            n == areas@.len(),
            n == blobs@.len(),
            n <= u32::MAX,
            px@.len() >= 3 * PIXELS,
            forall|k: u32|
                0 < k < n ==> measures(
                    px@,
                    raw@,
                    labels@,
                    k,
                    PIXELS as int,
                    #[trigger] blobs@[k as int],
                ),
            list@ == candidates_below(px@, areas@, blobs@, l as int),
        decreases n - l,
    {
        let ghost id = l as u32;
        assert(measures(px@, raw@, labels@, id, PIXELS as int, blobs@[id as int]));
        match candidate(px, areas[l], &blobs[l]) {
            Some(c) => list.push(c),
            None => {},
        }
        l += 1;
    }
    assert(lists_by(px@, labels@, areas@, blobs@, list@));
    list
}

/// A list that may be missing.
pub open spec fn list_of(list: Option<Vec<Candidate>>) -> Option<Seq<Candidate>> {
    match list {
        Some(l) => Some(l@),
        None => None,
    }
}

/// Whether a list is that of a frame behind its way to the base size: the frame
/// came out of the resizing as `out`, and there is no list if nothing came out.
pub open spec fn lists_outcome(out: Option<Seq<u8>>, list: Option<Seq<Candidate>>) -> bool {
    match (out, list) {
        (Some(px), Some(l)) => px.len() == 3 * PIXELS && lists_candidates(px, l),
        (None, None) => true,
        _ => false,
    }
}

/// Whether a list is that of a frame which is brought to the base size.
pub open spec fn lists_resized(img: Image, list: Option<Seq<Candidate>>) -> bool {
    exists|out: Option<Seq<u8>>| #[trigger]
        resize_outcome(img.data@, img.width, img.height, 1280, 720, out) && lists_outcome(out, list)
}

/// Lists what may be the treasure marker on a frame of any size. A frame of
/// another size is brought to the base size first; there is no list when that
/// fails.
pub fn find_treasure(img: &Image) -> (list: Option<Vec<Candidate>>)
    requires
        img.wf(),
        base_sized(*img) ==> clear_behind(*img),
    ensures
        base_sized(*img) ==> list is Some && lists_candidates(img.data@, list->0@),
        !base_sized(*img) ==> lists_resized(*img, list_of(list)),
{
    if img.width == 1280 && img.height == 720 {
        Some(treasure_candidates(img))
    } else {
        match fast_resize(&img.data, img.width, img.height, 1280, 720) {
            None => {
                assert(lists_outcome(None, None));
                None
            },
            Some(data) => {
                let work: Image = Image { width: 1280, height: 720, data };
                let list: Vec<Candidate> = treasure_candidates(&work);
                assert(lists_outcome(Some(work.data@), Some(list@)));
                Some(list)
            },
        }
    }
}

proof fn lemma_same_measures(
    px: Seq<u8>,
    raw: Seq<u8>,
    labels: Seq<u32>,
    l: u32,
    area: u32,
    a: Blob,
    b: Blob,
)
    requires
        measures(px, raw, labels, l, PIXELS as int, a),
        measures(px, raw, labels, l, PIXELS as int, b),
    ensures
        marker_shape(area, a) == marker_shape(area, b),
        marker_shape(area, a) ==> a == b,
{
    if a.count > 0 {
        let n = PIXELS as int;
        assert(in_blob(raw, labels, l, n, a.top as int));
        assert(in_blob(raw, labels, l, n, a.bottom as int));
        assert(in_blob(raw, labels, l, n, a.left as int));
        assert(in_blob(raw, labels, l, n, a.right as int));
        assert(in_blob(raw, labels, l, n, b.top as int));
        assert(in_blob(raw, labels, l, n, b.bottom as int));
        assert(in_blob(raw, labels, l, n, b.left as int));
        assert(in_blob(raw, labels, l, n, b.right as int));
        assert(a.top == b.top);
        assert(a.bottom == b.bottom);
        assert(a.left == b.left);
        assert(a.right == b.right);
    }
}

proof fn lemma_same_candidates(
    px: Seq<u8>,
    raw: Seq<u8>,
    labels: Seq<u32>,
    areas: Seq<u32>,
    a: Seq<Blob>,
    b: Seq<Blob>,
    n: int,
)
    requires
        n <= areas.len() <= u32::MAX,
        a.len() == areas.len(),
        b.len() == areas.len(),
        forall|l: u32|
            0 < l < areas.len() ==> measures(
                px,
                raw,
                labels,
                l,
                PIXELS as int,
                #[trigger] a[l as int],
            ),
        forall|l: u32|
            0 < l < areas.len() ==> measures(
                px,
                raw,
                labels,
                l,
                PIXELS as int,
                #[trigger] b[l as int],
            ),
    ensures
        candidates_below(px, areas, a, n) == candidates_below(px, areas, b, n),
    decreases n,
{
    if n > 1 {
        lemma_same_candidates(px, raw, labels, areas, a, b, n - 1);
        let l = (n - 1) as u32;
        assert(measures(px, raw, labels, l, PIXELS as int, a[l as int]));
        assert(measures(px, raw, labels, l, PIXELS as int, b[l as int]));
        lemma_same_measures(px, raw, labels, l, areas[n - 1], a[n - 1], b[n - 1]);
    }
}

/// A frame has one list of candidates only.
pub proof fn law_candidates_unique(px: Seq<u8>, list: Seq<Candidate>, other: Seq<Candidate>)
    requires
        lists_candidates(px, list),
        lists_candidates(px, other),
    ensures
        list == other,
{
    let (labels, areas, blobs) = choose|labels: Seq<u32>, areas: Seq<u32>, blobs: Seq<Blob>|
        #[trigger] lists_by(px, labels, areas, blobs, list);
    let (labels2, areas2, blobs2) = choose|labels: Seq<u32>, areas: Seq<u32>, blobs: Seq<Blob>|
        #[trigger] lists_by(px, labels, areas, blobs, other);
    let raw = raw_mask(px);
    law_labelling_unique(blob_mask(raw), BASE_WIDTH as int, labels, areas, labels2, areas2);
    assert(areas.len() <= u32::MAX) by {
        reveal(is_labelling);
    }
    lemma_same_candidates(px, raw, labels, areas, blobs, blobs2, areas.len() as int);
}

// ---------------------------------------------------------------------------
// Laws of the search
// ---------------------------------------------------------------------------

/// A colour is the marker's when it is bright, clearly more red than blue and
/// more blue than green, of middle saturation, and its hue lies between 310 and
/// 352 degrees on the side of the red that is turned to the blue.
pub proof fn law_marker_colour_by_hue(r: u8, g: u8, b: u8)
    ensures
        marker_colour(r, g, b) <==> {
            let spread = r - g;
            let hue = 360 * spread - 60 * (b - g);
            &&& r > 149
            &&& r - b > 20
            &&& b - g > 20
            &&& 80 * r <= 255 * spread
            &&& 255 * spread <= 210 * r
            &&& 310 * spread <= hue
            &&& hue <= 352 * spread
        },
{
}

/// A pixel is picked out exactly when its three bytes are the marker's colour.
pub proof fn law_coloured_pixels(px: Seq<u8>, i: int)
    requires
        0 <= i < PIXELS,
    ensures
        raw_mask(px).len() == 1280 * 720,
        raw_mask(px)[i] == 1 <==> marker_colour(px[3 * i], px[3 * i + 1], px[3 * i + 2]),
        raw_mask(px)[i] <= 1,
{
}

/// A place belongs to a blob exactly when, at most three pixels away, there is one
/// whose whole surroundings of six pixels have a coloured pixel at most six pixels
/// away.
pub proof fn law_blobs_by_distance(raw: Seq<u8>, x: int, y: int)
    requires
        raw.len() == 1280 * 720,
        0 <= x < 1280,
        0 <= y < 720,
    ensures
        blob_mask(raw)[y * 1280 + x] != 0 <==> exists|a: int, b: int|
            near(1280, 720, 3, x, y, a, b) && #[trigger] surrounded(raw, a, b),
        surrounded(raw, x, y) <==> forall|c: int, d: int|
            near(1280, 720, 6, x, y, c, d) ==> #[trigger] reached(raw, c, d),
        reached(raw, x, y) <==> exists|e: int, f: int|
            near(1280, 720, 6, x, y, e, f) && #[trigger] raw[f * 1280 + e] != 0,
{
    let wide = morph(raw, 1280, 720, 6, true);
    let shut = morph(wide, 1280, 720, 6, false);
    assert forall|a: int, b: int| 0 <= a < 1280 && 0 <= b < 720 implies #[trigger] set_at(
        wide,
        1280,
        a,
        b,
    ) == reached(raw, a, b) by {
        lemma_step_at(raw, 1280, 720, 6, true, a, b);
        lemma_reached(raw, a, b);
    }
    assert forall|a: int, b: int| 0 <= a < 1280 && 0 <= b < 720 implies #[trigger] set_at(
        shut,
        1280,
        a,
        b,
    ) == surrounded(raw, a, b) by {
        lemma_step_at(wide, 1280, 720, 6, false, a, b);
        if morph_at(wide, 1280, 720, 6, false, a, b) {
            assert forall|c: int, d: int| near(1280, 720, 6, a, b, c, d) implies #[trigger] reached(
                raw,
                c,
                d,
            ) by {
                assert(set_at(wide, 1280, c, d));
            }
        }
    }
    lemma_step_at(shut, 1280, 720, 3, true, x, y);
    if morph_at(shut, 1280, 720, 3, true, x, y) {
        let (a, b) = choose|a: int, b: int|
            near(1280, 720, 3, x, y, a, b) && #[trigger] set_at(shut, 1280, a, b);
        assert(surrounded(raw, a, b));
    }
    if exists|a: int, b: int| near(1280, 720, 3, x, y, a, b) && #[trigger] surrounded(raw, a, b) {
        let (a, b) = choose|a: int, b: int|
            near(1280, 720, 3, x, y, a, b) && #[trigger] surrounded(raw, a, b);
        assert(set_at(shut, 1280, a, b));
    }
    lemma_reached(raw, x, y);
}

/// Whether a coloured pixel is at most six pixels away from a place.
pub open spec fn reached(raw: Seq<u8>, x: int, y: int) -> bool {
    exists|e: int, f: int|
        near(1280, 720, 6, x, y, e, f) && #[trigger] raw[f * 1280 + e] != 0
}

/// Whether the whole surroundings of a place are reached.
pub open spec fn surrounded(raw: Seq<u8>, x: int, y: int) -> bool {
    forall|c: int, d: int| near(1280, 720, 6, x, y, c, d) ==> #[trigger] reached(raw, c, d)
}

proof fn lemma_reached(raw: Seq<u8>, x: int, y: int)
    ensures
        morph_at(raw, 1280, 720, 6, true, x, y) == reached(raw, x, y),
{
    if morph_at(raw, 1280, 720, 6, true, x, y) {
        let (e, f) = choose|e: int, f: int|
            near(1280, 720, 6, x, y, e, f) && #[trigger] set_at(raw, 1280, e, f);
        assert(raw[f * 1280 + e] != 0);
    }
    if reached(raw, x, y) {
        let (e, f) = choose|e: int, f: int|
            near(1280, 720, 6, x, y, e, f) && #[trigger] raw[f * 1280 + e] != 0;
        assert(set_at(raw, 1280, e, f));
    }
}

/// What is measured of a blob: how many coloured pixels it has, and four of them
/// with no pixel of the blob above, below, to the left or to the right.
pub proof fn law_blob_is_measured(
    px: Seq<u8>,
    raw: Seq<u8>,
    labels: Seq<u32>,
    l: u32,
    b: Blob,
    i: int,
)
    requires
        measures(px, raw, labels, l, PIXELS as int, b),
        0 <= i < PIXELS,
        raw[i] != 0,
        labels[i] == l,
    ensures
        b.count == set_int_range(0, PIXELS as int).filter(
            |k: int| raw[k] != 0 && labels[k] == l,
        ).len(),
        b.count > 0,
        b.top as int / 1280 <= i / 1280 <= b.bottom as int / 1280,
        b.left as int % 1280 <= i % 1280 <= b.right as int % 1280,
        b.top as int / 1280 == i / 1280 ==> b.top <= i,
        b.bottom as int / 1280 == i / 1280 ==> b.bottom <= i,
        b.left as int % 1280 == i % 1280 ==> b.left <= i,
        b.right as int % 1280 == i % 1280 ==> b.right <= i,
        forall|k: int|
            #![trigger raw[k]]
            k == b.top || k == b.bottom || k == b.left || k == b.right ==> 0 <= k < PIXELS
                && raw[k] != 0 && labels[k] == l,
{
    let n = PIXELS as int;
    lemma_count_is_size(raw, labels, l, n);
    assert(in_blob(raw, labels, l, n, i));
    if b.count == 0 {
        lemma_blob_empty(raw, labels, l, n);
    }
    assert(in_blob(raw, labels, l, n, b.top as int));
    assert(in_blob(raw, labels, l, n, b.bottom as int));
    assert(in_blob(raw, labels, l, n, b.left as int));
    assert(in_blob(raw, labels, l, n, b.right as int));
}

proof fn lemma_count_is_size(raw: Seq<u8>, labels: Seq<u32>, l: u32, n: int)
    requires
        0 <= n,
    ensures
        set_int_range(0, n).filter(|k: int| raw[k] != 0 && labels[k] == l).finite(),
        blob_count(raw, labels, l, n) == set_int_range(0, n).filter(
            |k: int| raw[k] != 0 && labels[k] == l,
        ).len(),
    decreases n,
{
    let all = set_int_range(0, n).filter(|k: int| raw[k] != 0 && labels[k] == l);
    lemma_int_range(0, n);
    if n == 0 {
        assert(all =~= Set::empty());
    } else {
        lemma_count_is_size(raw, labels, l, n - 1);
        let before = set_int_range(0, n - 1).filter(|k: int| raw[k] != 0 && labels[k] == l);
        if raw[n - 1] != 0 && labels[n - 1] == l {
            assert(all =~= before.insert(n - 1));
        } else {
            assert(all =~= before);
        }
    }
}

/// The sums of a blob take each of its coloured pixels once and no other: to
/// change one channel of one pixel changes the sum of that channel by as much if
/// the pixel is a coloured one of the blob, and else not at all.
pub proof fn law_sums_take_the_pixels(
    px: Seq<u8>,
    raw: Seq<u8>,
    labels: Seq<u32>,
    l: u32,
    c: int,
    n: int,
    i: int,
    v: u8,
)
    requires
        0 <= i < n,
        0 <= c < 3,
        3 * n <= px.len(),
    ensures
        ({
            let other = px.update(3 * i + c, v);
            let change = if raw[i] != 0 && labels[i] == l {
                v - px[3 * i + c]
            } else {
                0
            };
            blob_sum(other, raw, labels, l, c, n) == blob_sum(px, raw, labels, l, c, n) + change
        }),
        (forall|k: int| 0 <= k < n ==> #[trigger] px[3 * k + c] == 0) ==> blob_sum(
            px,
            raw,
            labels,
            l,
            c,
            n,
        ) == 0,
    decreases n,
{
    if i < n - 1 {
        law_sums_take_the_pixels(px, raw, labels, l, c, n - 1, i, v);
    } else {
        lemma_sum_elsewhere(px, raw, labels, l, c, n - 1, 3 * i + c, v);
    }
    if forall|k: int| 0 <= k < n ==> #[trigger] px[3 * k + c] == 0 {
        lemma_sum_of_zeros(px, raw, labels, l, c, n);
    }
}

proof fn lemma_sum_of_zeros(px: Seq<u8>, raw: Seq<u8>, labels: Seq<u32>, l: u32, c: int, n: int)
    requires
        forall|k: int| 0 <= k < n ==> #[trigger] px[3 * k + c] == 0,
    ensures
        blob_sum(px, raw, labels, l, c, n) == 0,
    decreases n,
{
    if n > 0 {
        lemma_sum_of_zeros(px, raw, labels, l, c, n - 1);
        assert(px[3 * (n - 1) + c] == 0);
    }
}

proof fn lemma_sum_elsewhere(
    px: Seq<u8>,
    raw: Seq<u8>,
    labels: Seq<u32>,
    l: u32,
    c: int,
    n: int,
    at: int,
    v: u8,
)
    requires
        0 <= c < 3,
        at >= 3 * n + c,
        3 * n <= px.len(),
        at < px.len(),
    ensures
        blob_sum(px.update(at, v), raw, labels, l, c, n) == blob_sum(px, raw, labels, l, c, n),
    decreases n,
{
    if n > 0 {
        lemma_sum_elsewhere(px, raw, labels, l, c, n - 1, at, v);
    }
}

/// The marker's shape by the columns and rows of the four outermost pixels: the
/// area, the number of coloured pixels, width and height are in their bounds, the
/// corners face each other, and it is about as wide as high.
pub proof fn law_marker_shape_by_corners(
    area: u32,
    b: Blob,
    tx: int,
    ty: int,
    bx: int,
    by: int,
    lx: int,
    ly: int,
    rx: int,
    ry: int,
)
    requires
        0 <= tx < 1280,
        0 <= bx < 1280,
        0 <= lx < 1280,
        0 <= rx < 1280,
        b.top == 1280 * ty + tx,
        b.bottom == 1280 * by + bx,
        b.left == 1280 * ly + lx,
        b.right == 1280 * ry + rx,
    ensures
        marker_shape(area, b) <==> {
            &&& area >= 120 && area <= 1200
            &&& b.count >= 8
            &&& 13 <= rx - lx <= 31
            &&& 13 <= by - ty <= 31
            &&& -4 <= tx - bx <= 4
            &&& -4 <= ly - ry <= 4
            &&& -3 <= (rx - lx) - (by - ty) <= 3
        },
{
}

/// What is reported of a blob of the marker's shape, by the columns and rows of
/// its outermost pixels: the middle between left and right and between top and
/// bottom, how much it is out of shape, and in how many of the four directions one
/// of the next two pixels is nearly black.
pub proof fn law_marker_is_reported(
    px: Seq<u8>,
    area: u32,
    b: Blob,
    tx: int,
    ty: int,
    bx: int,
    by: int,
    lx: int,
    ly: int,
    rx: int,
    ry: int,
)
    requires
        marker_shape(area, b),
        0 <= tx < 1280,
        0 <= bx < 1280,
        0 <= lx < 1280,
        0 <= rx < 1280,
        0 <= ty < 720,
        0 <= by < 720,
        0 <= ly < 720,
        0 <= ry < 720,
        b.top == 1280 * ty + tx,
        b.bottom == 1280 * by + bx,
        b.left == 1280 * ly + lx,
        b.right == 1280 * ry + rx,
    ensures
        ({
            let c = candidate_of(px, b);
            let black = |x: int, y: int|
                {
                    let at = 3 * (1280 * y + x);
                    &&& 0 <= x < 1280
                    &&& 0 <= y < 720
                    &&& px[at] < 50
                    &&& px[at + 1] < 50
                    &&& px[at + 2] < 50
                };
            let up = black(tx, ty - 1) || black(tx, ty - 2);
            let down = black(bx, by + 1) || black(bx, by + 2);
            let left = black(lx - 1, ly) || black(lx - 2, ly);
            let right = black(rx + 1, ry) || black(rx + 2, ry);
            &&& 2 * c.cx <= lx + rx <= 2 * c.cx + 1
            &&& 2 * c.cy <= ty + by <= 2 * c.cy + 1
            &&& c.hits == (up as int) + (down as int) + (left as int) + (right as int)
            &&& c.wh >= 0
            &&& c.wh == (rx - lx) - (by - ty) || c.wh == (by - ty) - (rx - lx)
            &&& c.align_x >= 0
            &&& c.align_x == tx - bx || c.align_x == bx - tx
            &&& c.count == b.count
            &&& c.red == b.red
            &&& c.green == b.green
            &&& c.blue == b.blue
        }),
{
}

/// The labels below `n` whose blobs have the marker's shape.
pub open spec fn markers_below(areas: Seq<u32>, blobs: Seq<Blob>, n: int) -> Set<int> {
    set_int_range(1, n).filter(|l: int| marker_shape(areas[l], blobs[l]))
}

/// Every blob of the frame that has the marker's shape is in the list, and nothing
/// else is: there are as many entries as such blobs, and a blob stands behind as
/// many entries as there are such blobs with a smaller label.
pub proof fn law_every_marker_is_listed(
    px: Seq<u8>,
    labels: Seq<u32>,
    areas: Seq<u32>,
    blobs: Seq<Blob>,
    list: Seq<Candidate>,
    l: int,
)
    requires
        lists_by(px, labels, areas, blobs, list),
    ensures
        markers_below(areas, blobs, areas.len() as int).contains(l) <==> 0 < l < areas.len()
            && marker_shape(areas[l], blobs[l]),
        list.len() == markers_below(areas, blobs, areas.len() as int).len(),
        0 < l < areas.len() && marker_shape(areas[l], blobs[l]) ==> {
            let at = markers_below(areas, blobs, l).len() as int;
            &&& at < list.len()
            &&& list[at] == candidate_of(px, blobs[l])
            &&& list.contains(candidate_of(px, blobs[l]))
        },
{
    assert(areas.len() > 0) by {
        reveal(is_labelling);
    }
    lemma_listed(px, areas, blobs, areas.len() as int, l);
    if 0 < l < areas.len() && marker_shape(areas[l], blobs[l]) {
        assert(list[markers_below(areas, blobs, l).len() as int] == candidate_of(px, blobs[l]));
    }
}

proof fn lemma_listed(px: Seq<u8>, areas: Seq<u32>, blobs: Seq<Blob>, n: int, l: int)
    requires
        1 <= n,
    ensures
        markers_below(areas, blobs, n).finite(),
        candidates_below(px, areas, blobs, n).len() == markers_below(areas, blobs, n).len(),
        0 < l < n && marker_shape(areas[l], blobs[l]) ==> markers_below(areas, blobs, l).len()
            < candidates_below(px, areas, blobs, n).len() && candidates_below(
            px,
            areas,
            blobs,
            n,
        )[markers_below(areas, blobs, l).len() as int] == candidate_of(px, blobs[l]),
    decreases n,
{
    let all = markers_below(areas, blobs, n);
    lemma_int_range(1, n);
    if n == 1 {
        assert(all =~= Set::empty());
    } else {
        lemma_listed(px, areas, blobs, n - 1, l);
        let before = markers_below(areas, blobs, n - 1);
        if marker_shape(areas[n - 1], blobs[n - 1]) {
            assert(all =~= before.insert(n - 1));
        } else {
            assert(all =~= before);
        }
    }
}

/// The marker is looked for on frames of 1280 by 720, with nothing that counts
/// stored behind their pixels; a frame of another size is brought to that size, and
/// there is no list exactly when nothing comes out of it.
pub proof fn law_frames_of_the_search(
    img: Image,
    out: Option<Seq<u8>>,
    list: Option<Seq<Candidate>>,
    v: Vec<Candidate>,
)
    ensures
        base_sized(img) <==> img.width == 1280 && img.height == 720 && img.data@.len() >= 3 * (
        1280 * 720),
        clear_behind(img) <==> forall|i: int|
            921600 <= i < img.data@.len() / 3 ==> !marker_colour(
                #[trigger] img.data@[3 * i],
                img.data@[3 * i + 1],
                img.data@[3 * i + 2],
            ),
        lists_outcome(out, list) <==> {
            &&& out is Some <==> list is Some
            &&& out is Some ==> out->0.len() == 3 * (1280 * 720) && lists_candidates(
                out->0,
                list->0,
            )
        },
        lists_resized(img, list) ==> exists|o: Option<Seq<u8>>| #[trigger]
            resize_outcome(img.data@, img.width, img.height, 1280, 720, o) && lists_outcome(
                o,
                list,
            ),
        list_of(Some(v)) == Some(v@),
        list_of(None) is None,
{
}

} // verus!
