//! Captured frames and what is read from them.

use crate::grid::{cell, lemma_cell};
use vstd::prelude::*;

verus! {

/// The width of the frames that positions refer to.
pub const W: u32 = 1280;

/// The height of the frames that positions refer to.
pub const H: u32 = 720;

/// A frame of 24-bit pixels, row by row, red, green and blue of each.
pub struct Image {
    pub width: u32,
    pub height: u32,
    pub data: Vec<u8>,
}

impl Image {
    /// There is a pixel for every position of the frame.
    pub open spec fn wf(&self) -> bool {
        3 * (self.width * self.height) <= self.data@.len()
    }

    /// Whether the frame has a pixel in column `x` of row `y`.
    pub open spec fn has(&self, x: int, y: int) -> bool {
        0 <= x < self.width && 0 <= y < self.height
    }

    /// One channel of a pixel: 0 for red, 1 for green, 2 for blue.
    pub open spec fn channel(&self, x: int, y: int, c: int) -> u8 {
        self.data@[3 * cell(self.width as int, x, y) + c]
    }
}

/// The distance of two channel values.
pub open spec fn channel_distance(a: u8, b: u8) -> int {
    if a >= b {
        a - b
    } else {
        b - a
    }
}

/// Whether a pixel has exactly the given colour.
pub open spec fn pixel_is(img: Image, x: int, y: int, r: u8, g: u8, b: u8) -> bool {
    &&& img.channel(x, y, 0) == r
    &&& img.channel(x, y, 1) == g
    &&& img.channel(x, y, 2) == b
}

/// Whether each channel of a pixel is closer than `v` to the given colour.
pub open spec fn pixel_near(img: Image, x: int, y: int, r: u8, g: u8, b: u8, v: u8) -> bool {
    &&& channel_distance(img.channel(x, y, 0), r) < v
    &&& channel_distance(img.channel(x, y, 1), g) < v
    &&& channel_distance(img.channel(x, y, 2), b) < v
}

/// The red, green and blue of a pixel.
pub fn get_pixel(img: &Image, x: u32, y: u32) -> (p: [u8; 3])
    requires
        img.wf(),
        img.has(x as int, y as int),
    ensures
        p[0] == img.channel(x as int, y as int, 0),
        p[1] == img.channel(x as int, y as int, 1),
        p[2] == img.channel(x as int, y as int, 2),
{
    proof {
        lemma_cell(img.width as int, img.height as int, x as int, y as int);
        assert(img.data.len() == img.data@.len());
    }
    let at: usize = (y as usize * img.width as usize + x as usize) * 3;
    [img.data[at], img.data[at + 1], img.data[at + 2]]
}

/// Whether a pixel has exactly the given colour.
pub fn pixel_equal(img: &Image, x: u32, y: u32, r: u8, g: u8, b: u8) -> (same: bool)
    requires
        img.wf(),
        img.has(x as int, y as int),
    ensures
        same == pixel_is(*img, x as int, y as int, r, g, b),
{
    let p = get_pixel(img, x, y);
    p[0] == r && p[1] == g && p[2] == b
}

/// Whether two channel values are closer than `v`.
fn channel_like(a: u8, b: u8, v: u8) -> (close: bool)
    ensures
        close == (channel_distance(a, b) < v),
{
    if a >= b {
        a - b < v
    } else {
        b - a < v
    }
}

/// Whether each channel of a pixel is closer than `v` to the given colour.
pub fn pixel_like(img: &Image, x: u32, y: u32, r: u8, g: u8, b: u8, v: u8) -> (close: bool)
    requires
        img.wf(),
        img.has(x as int, y as int),
    ensures
        close == pixel_near(*img, x as int, y as int, r, g, b, v),
{
    let p = get_pixel(img, x, y);
    channel_like(p[0], r, v) && channel_like(p[1], g, v) && channel_like(p[2], b, v)
}

/// What is seen of a frame, if all that has to be looked at is in it.
pub type Seen = Option<bool>;

/// Whether a pixel has exactly the given colour, if the frame has the pixel.
pub open spec fn seen_equal(img: Image, x: int, y: int, r: u8, g: u8, b: u8) -> Seen {
    if img.has(x, y) {
        Some(pixel_is(img, x, y, r, g, b))
    } else {
        None
    }
}

/// Whether a pixel is close to the given colour, if the frame has the pixel.
pub open spec fn seen_like(img: Image, x: int, y: int, r: u8, g: u8, b: u8, v: u8) -> Seen {
    if img.has(x, y) {
        Some(pixel_near(img, x, y, r, g, b, v))
    } else {
        None
    }
}

/// Both: the second is looked at only if the first holds.
pub open spec fn both(a: Seen, b: Seen) -> Seen {
    match a {
        Some(true) => b,
        _ => a,
    }
}

/// One of the two: the second is looked at only if the first does not hold.
pub open spec fn either(a: Seen, b: Seen) -> Seen {
    match a {
        Some(false) => b,
        _ => a,
    }
}

/// The opposite.
pub open spec fn opposite(a: Seen) -> Seen {
    match a {
        Some(x) => Some(!x),
        None => None,
    }
}

/// Whether a pixel has exactly the given colour, if the frame has the pixel.
pub fn see_equal(img: &Image, x: u32, y: u32, r: u8, g: u8, b: u8) -> (s: Seen)
    requires
        img.wf(),
    ensures
        s == seen_equal(*img, x as int, y as int, r, g, b),
{
    if x < img.width && y < img.height {
        Some(pixel_equal(img, x, y, r, g, b))
    } else {
        None
    }
}

/// Whether a pixel is close to the given colour, if the frame has the pixel.
pub fn see_like(img: &Image, x: u32, y: u32, r: u8, g: u8, b: u8, v: u8) -> (s: Seen)
    requires
        img.wf(),
    ensures
        s == seen_like(*img, x as int, y as int, r, g, b, v),
{
    if x < img.width && y < img.height {
        Some(pixel_like(img, x, y, r, g, b, v))
    } else {
        None
    }
}

/// Both.
pub fn see_both(a: Seen, b: Seen) -> (s: Seen)
    ensures
        s == both(a, b),
{
    match a {
        Some(true) => b,
        _ => a,
    }
}

/// One of the two.
pub fn see_either(a: Seen, b: Seen) -> (s: Seen)
    ensures
        s == either(a, b),
{
    match a {
        Some(false) => b,
        _ => a,
    }
}

/// The opposite.
pub fn see_opposite(a: Seen) -> (s: Seen)
    ensures
        s == opposite(a),
{
    match a {
        Some(x) => Some(!x),
        None => None,
    }
}

// ---------------------------------------------------------------------------
// Capturing
// ---------------------------------------------------------------------------

/// The sides of a rectangle on the screen.
#[derive(Debug, Clone, Copy, PartialEq, Eq)]
pub struct Sides {
    pub left: i32,
    pub top: i32,
    pub right: i32,
    pub bottom: i32,
}

/// The part of a captured window that the game draws in, as left, top, width
/// and height: `client` is that part and `origin` its corner on the screen,
/// `window` is the whole window.
pub fn client_area(client: Sides, origin: (i32, i32), window: Sides) -> (r: (u32, u32, u32, u32))
    requires
        i32::MIN <= origin.0 - window.left <= i32::MAX,
        i32::MIN <= origin.1 - window.top <= i32::MAX,
        i32::MIN <= client.right - client.left <= i32::MAX,
        i32::MIN <= client.bottom - client.top <= i32::MAX,
    ensures
        r.0 == (if origin.0 > window.left {
            origin.0 - window.left
        } else {
            0
        }),
        r.1 == (if origin.1 > window.top {
            origin.1 - window.top
        } else {
            0
        }),
        r.2 == unsigned(client.right - client.left),
        r.3 == unsigned(client.bottom - client.top),
{
    let x: u32 = if origin.0 > window.left {
        (origin.0 - window.left) as u32
    } else {
        0
    };
    let y: u32 = if origin.1 > window.top {
        (origin.1 - window.top) as u32
    } else {
        0
    };
    (x, y, to_unsigned(client.right - client.left), to_unsigned(client.bottom - client.top))
}

/// A length as an unsigned number of 32 bits; a negative one counts from above.
pub open spec fn unsigned(n: int) -> int {
    if n < 0 {
        n + 0x1_0000_0000
    } else {
        n
    }
}

fn to_unsigned(n: i32) -> (r: u32)
    ensures
        r == unsigned(n as int),
{
    if n < 0 {
        (n as i64 + 0x1_0000_0000) as u32
    } else {
        n as u32
    }
}

/// The frame that was captured last; empty before the first.
pub struct FrameBuf {
    pub rgb: Vec<u8>,
    pub width: u32,
    pub height: u32,
}

/// A capture: the frame that was captured last, and the number of the capture,
/// by which its frames are told from those of an earlier one.
pub struct Vision {
    pub buffer: FrameBuf,
    pub epoch: u64,
}

/// The number behind a number; the first comes behind the last.
pub open spec fn next_epoch(e: u64) -> u64 {
    if e == u64::MAX {
        0
    } else {
        (e + 1) as u64
    }
}

/// The red, green and blue of pixels that have a fourth channel.
pub open spec fn without_alpha(rgba: Seq<u8>) -> Seq<u8> {
    Seq::new(3 * (rgba.len() / 4), |k: int| rgba[4 * (k / 3) + k % 3])
}

/// The width, the height and the pixels of the frame that was captured last, if
/// all of its pixels are there.
pub open spec fn frame_of(b: FrameBuf) -> Option<(u32, u32, Seq<u8>)> {
    if 3 * (b.width * b.height) <= b.rgb@.len() {
        Some((b.width, b.height, b.rgb@))
    } else {
        None
    }
}

/// How often is looked whether a first frame has come, and the time behind a
/// look that found none, in microseconds.
pub const FRAME_LOOKS: u32 = 200;

pub const FRAME_REST: u64 = 10_000;

/// What follows from a look for a first frame.
#[derive(Debug, Clone, Copy, PartialEq, Eq)]
pub enum FirstFrame {
    /// It is there.
    Come,
    /// Rest and look again.
    Again { looks: u32 },
    /// Rest and give up.
    GiveUp,
}

impl Vision {
    /// Begins a capture behind the one with the given number.
    pub fn start(last: u64) -> (v: Self)
        ensures
            v.epoch == next_epoch(last),
            v.buffer.rgb@.len() == 0,
            v.buffer.width == 0,
            v.buffer.height == 0,
    {
        let mut v = Vision {
            buffer: FrameBuf { rgb: Vec::new(), width: 0, height: 0 },
            epoch: last,
        };
        v.stop();
        v
    }

    /// Looks for a first frame, when `looks` looks came before.
    pub fn await_frame(&self, looks: u32) -> (r: FirstFrame)
        requires
            looks < FRAME_LOOKS,
        ensures
            r == (if self.buffer.rgb@.len() > 0 {
                FirstFrame::Come
            } else if looks + 1 < FRAME_LOOKS {
                FirstFrame::Again { looks: (looks + 1) as u32 }
            } else {
                FirstFrame::GiveUp
            }),
    {
        if self.buffer.rgb.len() > 0 {
            FirstFrame::Come
        } else if looks + 1 < FRAME_LOOKS {
            FirstFrame::Again { looks: looks + 1 }
        } else {
            FirstFrame::GiveUp
        }
    }

    /// Takes a frame of the capture with the given number, with four channels in
    /// each pixel. The frame of an earlier capture is not taken: says whether the
    /// capture goes on.
    pub fn on_frame_arrived(&mut self, epoch: u64, rgba: &[u8], width: u32, height: u32) -> (on:
        bool)
        ensures
            on == (old(self).epoch == epoch),
            final(self).epoch == old(self).epoch,
            on ==> {
                &&& final(self).buffer.rgb@ == without_alpha(rgba@)
                &&& final(self).buffer.width == width
                &&& final(self).buffer.height == height
            },
            !on ==> *final(self) == *old(self),
    {
        if self.epoch != epoch {
            return false;
        }
        let mut rgb: Vec<u8> = Vec::new();
        let mut i: usize = 0;
        assert(rgba.len() == rgba@.len());
        while rgba.len() - i >= 4
            invariant
                i <= rgba@.len() <= usize::MAX,
                i % 4 == 0,
                rgb@.len() == 3 * (i as int / 4),
                forall|k: int|
                    0 <= k < rgb@.len() ==> (#[trigger] rgb@[k]) == rgba@[4 * (k / 3) + k % 3],
                self.epoch == epoch,
                old(self).epoch == epoch,
            decreases rgba@.len() - i,
        {
            rgb.push(rgba[i]);
            rgb.push(rgba[i + 1]);
            rgb.push(rgba[i + 2]);
            i += 4;
        }
        assert(rgb@ =~= without_alpha(rgba@));
        self.buffer = FrameBuf { rgb, width, height };
        true
    }

    /// Ends the capture: what comes of it from now on is not taken.
    pub fn stop(&mut self)
        ensures
            final(self).epoch == next_epoch(old(self).epoch),
            final(self).buffer == old(self).buffer,
    {
        self.epoch = if self.epoch == u64::MAX {
            0
        } else {
            self.epoch + 1
        };
    }

    /// The width and height of the frame that was captured last.
    pub fn dimensions(&self) -> (r: (u32, u32))
        ensures
            r == (self.buffer.width, self.buffer.height),
    {
        (self.buffer.width, self.buffer.height)
    }

    /// The frame that was captured last, if all of its pixels are there.
    pub fn shot(&self) -> (r: Option<Image>)
        ensures
            frame_of(self.buffer) == match r {
                Some(img) => Some((img.width, img.height, img.data@)),
                None => None,
            },
            r matches Some(img) ==> img.wf(),
    {
        let w: u32 = self.buffer.width;
        let h: u32 = self.buffer.height;
        assert(3 * (w * h) <= 3 * (0xFFFF_FFFF * 0xFFFF_FFFF)) by (nonlinear_arith)
            requires
                w <= 0xFFFF_FFFF,
                h <= 0xFFFF_FFFF,
        ;
        let need: u128 = 3 * (w as u128 * h as u128);
        if need > self.buffer.rgb.len() as u128 {
            return None;
        }
        let data: Vec<u8> = copy_bytes(&self.buffer.rgb);
        Some(Image { width: w, height: h, data })
    }
}

fn copy_bytes(v: &Vec<u8>) -> (r: Vec<u8>)
    ensures
        r@ == v@,
{
    let mut r: Vec<u8> = Vec::new();
    let mut i: usize = 0;
    while i < v.len()
        invariant
            i <= v@.len(),
            r@ == v@.take(i as int),
        decreases v@.len() - i,
    {
        r.push(v[i]);
        assert(v@.take(i + 1) =~= v@.take(i as int).push(v@[i as int]));
        i += 1;
    }
    assert(v@.take(i as int) =~= v@);
    r
}

/// A capture that was ended takes no frame of its own any more, nor does the
/// capture behind it take one.
pub proof fn law_ended_capture_takes_nothing(e: u64)
    ensures
        next_epoch(e) != e,
        next_epoch(next_epoch(e)) != e,
{
}

/// A frame that has arrived whole is given back: each pixel has the red, green
/// and blue that it arrived with.
pub proof fn law_whole_frame_is_given(b: FrameBuf, rgba: Seq<u8>, x: int, y: int, c: int)
    requires
        b.rgb@ == without_alpha(rgba),
        rgba.len() == 4 * (b.width * b.height),
        0 <= x < b.width,
        0 <= y < b.height,
        0 <= c < 3,
    ensures
        frame_of(b) matches Some((width, height, data)) && width == b.width && height == b.height
            && data[3 * cell(width as int, x, y) + c] == rgba[4 * cell(width as int, x, y) + c],
{
    lemma_cell(b.width as int, b.height as int, x, y);
    let k = 3 * cell(b.width as int, x, y) + c;
    assert(k / 3 == cell(b.width as int, x, y) && k % 3 == c);
}

// ---------------------------------------------------------------------------
// Parts of frames
// ---------------------------------------------------------------------------

/// The smaller of two lengths.
pub open spec fn least(a: int, b: int) -> int {
    if a < b {
        a
    } else {
        b
    }
}

/// Whether `part` is the part of a frame at the given place, as far as the frame
/// reaches.
pub open spec fn is_part(img: Image, x: int, y: int, w: int, h: int, part: Image) -> bool {
    let left = least(x, img.width as int);
    let top = least(y, img.height as int);
    &&& part.width == least(w, img.width - left)
    &&& part.height == least(h, img.height - top)
    &&& part.data@.len() == 3 * (part.width * part.height)
    &&& forall|i: int, j: int, c: int|
        part.has(i, j) && 0 <= c < 3 ==> #[trigger] part.channel(i, j, c) == img.channel(
            left + i,
            top + j,
            c,
        )
}

/// The part of a frame at the given place, as far as the frame reaches.
pub fn crop(img: &Image, x: u32, y: u32, w: u32, h: u32) -> (part: Image)
    requires
        img.wf(),
    ensures
        part.wf(),
        is_part(*img, x as int, y as int, w as int, h as int, part),
{
    let left: u32 = if x < img.width {
        x
    } else {
        img.width
    };
    let top: u32 = if y < img.height {
        y
    } else {
        img.height
    };
    let width: u32 = if w < img.width - left {
        w
    } else {
        img.width - left
    };
    let height: u32 = if h < img.height - top {
        h
    } else {
        img.height - top
    };
    let mut part = Image { width, height, data: Vec::new() };
    let mut j: u32 = 0;
    assert(0 * width == 0) by (nonlinear_arith);
    while j < height
        invariant
            img.wf(),
            left + width <= img.width,
            top + height <= img.height,
            part.width == width,
            part.height == height,
            j <= height,
            part.data@.len() == 3 * (j * width),
            forall|a: int, b: int, c: int|
                0 <= a < width && 0 <= b < j && 0 <= c < 3 ==> #[trigger] part.channel(a, b, c)
                    == img.channel(left + a, top + b, c),
        decreases height - j,
    {
        let mut i: u32 = 0;
        while i < width
            invariant
                img.wf(),
                left + width <= img.width,
                top + height <= img.height,
                part.width == width,
                part.height == height,
                j < height,
                i <= width,
                part.data@.len() == 3 * (j * width + i),
                forall|a: int, b: int, c: int|
                    0 <= a < width && 0 <= b <= j && (b < j || a < i) && 0 <= c < 3
                        ==> #[trigger] part.channel(a, b, c) == img.channel(left + a, top + b, c),
            decreases width - i,
        {
            let ghost was = part;
            let p: [u8; 3] = get_pixel(img, left + i, top + j);
            part.data.push(p[0]);
            part.data.push(p[1]);
            part.data.push(p[2]);
            proof {
                assert forall|a: int, b: int, c: int|
                    0 <= a < width && 0 <= b <= j && (b < j || a < i + 1) && 0 <= c
                        < 3 implies #[trigger] part.channel(a, b, c) == img.channel(
                    left + a,
                    top + b,
                    c,
                ) by {
                    lemma_cell(width as int, height as int, a, b);
                    lemma_cell(width as int, height as int, i as int, j as int);
                    if b < j || a < i {
                        if b < j {
                            lemma_cell(width as int, j as int, a, b);
                            assert(width * j == j * width) by (nonlinear_arith);
                        }
                        assert(cell(width as int, a, b) < j * width + i);
                        assert(part.channel(a, b, c) == was.channel(a, b, c));
                    }
                }
            }
            i += 1;
        }
        proof {
            assert((j + 1) * width == j * width + width) by (nonlinear_arith);
        }
        j += 1;
    }
    proof {
        assert(height * width == width * height) by (nonlinear_arith);
    }
    part
}

/// Whether `out` can be what `fast_image_resize::Resizer::resize` makes of a
/// picture of 24-bit pixels with the Lanczos convolution: nothing if it fails,
/// and else the pixels of the new size. The same picture may come out
/// differently on another machine, because the weights are computed with the
/// sine of the platform.
pub uninterp spec fn resize_outcome(
    data: Seq<u8>,
    width: u32,
    height: u32,
    new_width: u32,
    new_height: u32,
    out: Option<Seq<u8>>,
) -> bool;

/// Pixels that may be missing.
pub open spec fn pixels_of(v: Option<Vec<u8>>) -> Option<Seq<u8>> {
    match v {
        Some(v) => Some(v@),
        None => None,
    }
}

/// Calls `fast_image_resize::Resizer::resize` with the Lanczos convolution on
/// 24-bit pixels. Trusted: the result is a possible one for these arguments, and
/// if there are pixels, there are as many as the new size has. Which values they
/// have is left unsaid.
#[verifier::external_body]
pub(crate) fn fast_resize(
    data: &Vec<u8>,
    width: u32,
    height: u32,
    new_width: u32,
    new_height: u32,
) -> (r: Option<Vec<u8>>)
    requires
        3 * (width * height) <= data@.len(),
        3 * (new_width * new_height) <= isize::MAX,
    ensures
        resize_outcome(data@, width, height, new_width, new_height, pixels_of(r)),
        r matches Some(v) ==> v@.len() == 3 * (new_width * new_height),
{
    let kind = fast_image_resize::PixelType::U8x3;
    let src = fast_image_resize::images::ImageRef::new(width, height, data, kind).ok()?;
    let mut dst = fast_image_resize::images::Image::new(new_width, new_height, kind);
    let alg = fast_image_resize::ResizeAlg::Convolution(fast_image_resize::FilterType::Lanczos3);
    let options = fast_image_resize::ResizeOptions::new().resize_alg(alg);
    fast_image_resize::Resizer::new().resize(&src, &mut dst, &options).ok()?;
    Some(dst.into_vec())
}

// ---------------------------------------------------------------------------
// Laws of pixels
// ---------------------------------------------------------------------------

/// A pixel is compared by its three bytes: it is equal when they are those of the
/// colour, and alike when each is less than `v` above or below.
pub proof fn law_pixel_by_bytes(img: Image, x: int, y: int, r: u8, g: u8, b: u8, v: u8)
    ensures
        ({
            let d = img.data@;
            let at = 3 * (y * img.width + x);
            &&& pixel_is(img, x, y, r, g, b) <==> d[at] == r && d[at + 1] == g && d[at + 2] == b
            &&& pixel_near(img, x, y, r, g, b, v) <==> {
                &&& r - v < d[at] < r + v
                &&& g - v < d[at + 1] < g + v
                &&& b - v < d[at + 2] < b + v
            }
        }),
{
}

/// A pixel is seen exactly when it lies in the frame, and then as it is compared.
pub proof fn law_seen_in_the_frame(img: Image, x: int, y: int, r: u8, g: u8, b: u8, v: u8)
    ensures
        seen_equal(img, x, y, r, g, b) is Some <==> 0 <= x < img.width && 0 <= y < img.height,
        seen_like(img, x, y, r, g, b, v) is Some <==> 0 <= x < img.width && 0 <= y < img.height,
        seen_equal(img, x, y, r, g, b) matches Some(s) ==> s == pixel_is(img, x, y, r, g, b),
        seen_like(img, x, y, r, g, b, v) matches Some(s) ==> s == pixel_near(
            img,
            x,
            y,
            r,
            g,
            b,
            v,
        ),
{
}

/// What is seen is put together from left to right: what was not seen counts only
/// where it had to be looked at.
pub proof fn law_looks_are_combined(a: Seen, b: Seen)
    ensures
        both(a, b) == Some(true) <==> a == Some(true) && b == Some(true),
        both(a, b) is None <==> a is None || a == Some(true) && b is None,
        either(a, b) == Some(false) <==> a == Some(false) && b == Some(false),
        either(a, b) is None <==> a is None || a == Some(false) && b is None,
        opposite(opposite(a)) == a,
        opposite(a) is None <==> a is None,
        opposite(a) != a || a is None,
{
}

/// The frame that arrives loses its fourth channel and nothing else: each pixel
/// has three bytes, those that it arrived with.
pub proof fn law_fourth_channel_is_dropped(rgba: Seq<u8>, p: int, c: int)
    requires
        0 <= p,
        4 * p + 3 < rgba.len(),
        0 <= c < 3,
    ensures
        without_alpha(rgba).len() == 3 * (rgba.len() / 4),
        without_alpha(rgba)[3 * p + c] == rgba[4 * p + c],
{
    let k = 3 * p + c;
    assert(k / 3 == p && k % 3 == c);
}

/// A part of a frame that lies in it has the size that was asked for, and its
/// bytes are those of the frame at the place; what lies outside is left away.
pub proof fn law_part_of_a_frame(img: Image, x: int, y: int, w: int, h: int, part: Image)
    requires
        is_part(img, x, y, w, h, part),
        0 <= x,
        0 <= y,
        0 <= w,
        0 <= h,
    ensures
        x + w <= img.width && y + h <= img.height ==> part.width == w && part.height == h,
        x >= img.width ==> part.width == 0,
        y >= img.height ==> part.height == 0,
        x < img.width && x + w > img.width ==> x + part.width == img.width,
        y < img.height && y + h > img.height ==> y + part.height == img.height,
        part.data@.len() == 3 * (part.width * part.height),
        forall|i: int, j: int, c: int|
            0 <= i < part.width && 0 <= j < part.height && 0 <= c < 3
                ==> #[trigger] part.data@[3 * (j * part.width + i) + c] == img.data@[3 * ((y + j)
                * img.width + (x + i)) + c],
{
    assert forall|i: int, j: int, c: int|
        0 <= i < part.width && 0 <= j < part.height && 0 <= c < 3 implies #[trigger] part.data@[3
        * (j * part.width + i) + c] == img.data@[3 * ((y + j) * img.width + (x + i)) + c] by {
        assert(part.has(i, j));
        assert(part.channel(i, j, c) == img.channel(x + i, y + j, c));
    }
}

/// Two captures that begin one behind the other have different numbers, and the
/// numbers run through all that there are.
pub proof fn law_captures_are_numbered(a: u64, b: u64)
    ensures
        next_epoch(a) == next_epoch(b) ==> a == b,
        a < u64::MAX ==> next_epoch(a) == a + 1,
        next_epoch(u64::MAX) == 0,
{
}

/// The area that the game draws in has the size of the client area, and lies in
/// the window where the client area does: a length below zero counts as one that
/// wraps around.
pub proof fn law_lengths_wrap_around(n: int)
    requires
        i32::MIN <= n <= i32::MAX,
    ensures
        0 <= unsigned(n) <= u32::MAX,
        (unsigned(n) - n) % 0x1_0000_0000 == 0,
        n >= 0 ==> unsigned(n) == n,
{
}

/// A frame is whole when it has three bytes for each of its pixels; positions refer
/// to frames of 1280 by 720.
pub proof fn law_whole_frames(img: Image)
    ensures
        img.wf() <==> img.data@.len() >= 3 * (img.width * img.height),
        W == 1280 && H == 720,
{
}

/// A first frame is waited for two seconds, and looked for a hundred times in each.
pub proof fn law_first_frame_is_waited_for()
    ensures
        FRAME_LOOKS * FRAME_REST == 2_000_000,
        100 * FRAME_REST == 1_000_000,
{
}

/// The frame that was captured last is given exactly when all of its pixels are
/// there, and as it was captured.
pub proof fn law_captured_frame_is_given(b: FrameBuf, v: Vec<u8>)
    ensures
        frame_of(b) is Some <==> 3 * (b.width * b.height) <= b.rgb@.len(),
        frame_of(b) matches Some((w, h, data)) ==> w == b.width && h == b.height && data == b.rgb@,
        pixels_of(Some(v)) == Some(v@),
        pixels_of(None) is None,
{
}

} // verus!
