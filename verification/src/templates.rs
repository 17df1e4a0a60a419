//! Comparing a part of a frame with a set of pictures: how both are brought to
//! one size, which pixels count, and what the likenesses mean.

use vstd::prelude::*;
use crate::grid::{cell, column, lemma_cell, row};
use crate::order::{is_ranking, lemma_ranking_complete, outranks, rank};
use crate::text::{decimal, decimal_text, texts};
use crate::vision::{crop, is_part, Image};

verus! {

/// What `image::imageops::resize` makes of a picture of four channels with the
/// filter `Triangle`: the pixels of a square of the new size.
pub uninterp spec fn resampled(data: Seq<u8>, width: u32, height: u32, size: u32) -> Seq<u8>;

/// `image::imageops::resize` on pixels of four channels, with the filter
/// `Triangle`, to a square. Trusted: the pixels of the square are a function of
/// the old picture, its size and the new size, and there are as many as the new
/// size asks for. The square has to fit into memory, and so have the columns
/// that are resampled first.
#[verifier::external_body]
fn resize(data: &Vec<u8>, width: u32, height: u32, size: u32) -> (r: Vec<u8>)
    requires
        data@.len() == 4 * (width * height),
        16 * (width * size) <= isize::MAX,
        16 * (size * size) <= isize::MAX,
    ensures
        r@ == resampled(data@, width, height, size),
        r@.len() == 4 * (size * size),
{
    let img = image::RgbaImage::from_raw(width, height, data.clone()).unwrap();
    image::imageops::resize(&img, size, size, image::imageops::FilterType::Triangle).into_raw()
}

/// What `image::DynamicImage::resize_exact` makes of a picture of three channels
/// with the filter `Triangle`: the pixels of a square of the new size.
pub uninterp spec fn resampled_frame(data: Seq<u8>, width: u32, height: u32, size: u32) -> Seq<u8>;

/// `image::DynamicImage::resize_exact` on pixels of three channels, with the
/// filter `Triangle`, to a square. Trusted: as for `resize`, with three channels
/// in each pixel.
#[verifier::external_body]
fn resize_exact(data: &Vec<u8>, width: u32, height: u32, size: u32) -> (r: Vec<u8>)
    requires
        data@.len() == 3 * (width * height),
        16 * (width * size) <= isize::MAX,
        16 * (size * size) <= isize::MAX,
    ensures
        r@ == resampled_frame(data@, width, height, size),
        r@.len() == 3 * (size * size),
{
    let img = image::RgbImage::from_raw(width, height, data.clone()).unwrap();
    let filter = image::imageops::FilterType::Triangle;
    image::DynamicImage::ImageRgb8(img).resize_exact(size, size, filter).into_bytes()
}

/// A picture with four channels in each pixel.
pub struct RgbaPicture {
    pub width: u32,
    pub height: u32,
    pub data: Vec<u8>,
}

impl RgbaPicture {
    /// There is a pixel for every position.
    pub open spec fn wf(self) -> bool {
        self.data@.len() == 4 * (self.width * self.height)
    }
}

/// Whether a picture of the given width can be brought to a square of the given
/// size in memory.
pub open spec fn fits(width: u32, size: u32) -> bool {
    &&& 16 * (width * size) <= isize::MAX
    &&& 16 * (size * size) <= isize::MAX
}

/// The pixels that count in a square: those in the circle of the given radius
/// around its middle.
pub open spec fn circle(size: int, radius: int) -> Seq<u8> {
    Seq::new(
        (size * size) as nat,
        |k: int|
            {
                let dx = column(size, k) - size / 2;
                let dy = row(size, k) - size / 2;
                if dx * dx + dy * dy <= radius * radius {
                    255
                } else {
                    0
                }
            },
    )
}

/// The pixels that count in a square: those in a circle around its middle.
pub fn circle_mask(size: u32, radius: i32) -> (r: Vec<u8>)
    requires
        size <= 0x1_0000,
        -0x1_0000 <= radius <= 0x1_0000,
    ensures
        r@ == circle(size as int, radius as int),
{
    let ghost all = circle(size as int, radius as int);
    let mut r: Vec<u8> = Vec::new();
    let middle: i64 = (size / 2) as i64;
    let limit: i64 = radius as i64;
    let mut j: u32 = 0;
    assert(0 * size == 0) by (nonlinear_arith);
    assert(size * size >= 0) by (nonlinear_arith);
    assert(0 <= limit * limit <= 0x1_0000 * 0x1_0000) by (nonlinear_arith)
        requires
            -0x1_0000 <= limit <= 0x1_0000,
    ;
    while j < size
        invariant
            size <= 0x1_0000,
            middle == size as int / 2,
            limit == radius,
            0 <= limit * limit <= 0x1_0000 * 0x1_0000,
            all == circle(size as int, radius as int),
            all.len() == size * size,
            j <= size,
            r@.len() == j * size,
            forall|k: int| 0 <= k < r@.len() ==> (#[trigger] r@[k]) == all[k],
        decreases size - j,
    {
        let mut i: u32 = 0;
        while i < size
            invariant
                size <= 0x1_0000,
                middle == size as int / 2,
                limit == radius,
                0 <= limit * limit <= 0x1_0000 * 0x1_0000,
                all == circle(size as int, radius as int),
                all.len() == size * size,
                j < size,
                i <= size,
                r@.len() == j * size + i,
                forall|k: int| 0 <= k < r@.len() ==> (#[trigger] r@[k]) == all[k],
            decreases size - i,
        {
            let dx: i64 = i as i64 - middle;
            let dy: i64 = j as i64 - middle;
            assert(0 <= dx * dx <= 0x1_0000 * 0x1_0000) by (nonlinear_arith)
                requires
                    -0x1_0000 <= dx <= 0x1_0000,
            ;
            assert(0 <= dy * dy <= 0x1_0000 * 0x1_0000) by (nonlinear_arith)
                requires
                    -0x1_0000 <= dy <= 0x1_0000,
            ;
            let v: u8 = if dx * dx + dy * dy <= limit * limit {
                255
            } else {
                0
            };
            proof {
                lemma_cell(size as int, size as int, i as int, j as int);
                assert(all[cell(size as int, i as int, j as int)] == v);
            }
            r.push(v);
            i += 1;
        }
        proof {
            assert((j + 1) * size == j * size + size) by (nonlinear_arith);
        }
        j += 1;
    }
    assert(r@ =~= all);
    r
}

/// The pixels that count in a picture: those that are more than half opaque.
pub open spec fn opaque_part(rgba: Seq<u8>) -> Seq<u8> {
    Seq::new(
        rgba.len() / 4,
        |k: int|
            if rgba[4 * k + 3] > 128 {
                255
            } else {
                0
            },
    )
}

/// The pixels that count in a picture.
pub fn alpha_mask(rgba: &Vec<u8>) -> (r: Vec<u8>)
    ensures
        r@ == opaque_part(rgba@),
{
    let n: usize = rgba.len() / 4;
    let mut r: Vec<u8> = Vec::new();
    let mut k: usize = 0;
    while k < n
        invariant
            k <= n,
            n == rgba@.len() / 4,
            rgba@.len() <= usize::MAX,
            r@.len() == k,
            forall|i: int| 0 <= i < k ==> (#[trigger] r@[i]) == opaque_part(rgba@)[i],
        decreases n - k,
    {
        let v: u8 = if rgba[4 * k + 3] > 128 {
            255
        } else {
            0
        };
        r.push(v);
        k += 1;
    }
    assert(r@ =~= opaque_part(rgba@));
    r
}

/// Pixels of three channels with a fourth one, fully opaque.
pub open spec fn with_alpha(rgb: Seq<u8>) -> Seq<u8> {
    Seq::new(
        4 * (rgb.len() / 3),
        |k: int|
            if k % 4 == 3 {
                255
            } else {
                rgb[3 * (k / 4) + k % 4]
            },
    )
}

fn add_alpha(rgb: &Vec<u8>) -> (r: Vec<u8>)
    ensures
        r@ == with_alpha(rgb@),
{
    let pixels: usize = rgb.len() / 3;
    let mut r: Vec<u8> = Vec::new();
    let mut k: usize = 0;
    while k < pixels
        invariant
            k <= pixels,
            pixels == rgb@.len() / 3,
            rgb@.len() <= usize::MAX,
            r@.len() == 4 * k,
            forall|i: int| 0 <= i < r@.len() ==> (#[trigger] r@[i]) == with_alpha(rgb@)[i],
        decreases pixels - k,
    {
        let ghost at = 4 * k;
        r.push(rgb[3 * k]);
        r.push(rgb[3 * k + 1]);
        r.push(rgb[3 * k + 2]);
        r.push(255);
        proof {
            assert forall|i: int| 0 <= i < r@.len() implies (#[trigger] r@[i]) == with_alpha(
                rgb@,
            )[i] by {
                if i >= at {
                    assert(i / 4 == k);
                }
            }
        }
        k += 1;
    }
    assert(r@ =~= with_alpha(rgb@));
    r
}

/// A picture of the set: the name that it stands for, and its file.
pub struct RefItem {
    pub name: String,
    pub file: String,
}

/// A picture that was brought to the size of the set, with the pixels of it that
/// count.
pub struct Prepared {
    pub pixels: Vec<u8>,
    pub mask: Vec<u8>,
}

/// One of the pictures that are most alike: its place in the set.
pub struct TopMatch {
    pub name: String,
    pub file: String,
    pub place: usize,
}

/// What a comparison with the set has shown: the pictures that are most alike,
/// and the one that was recognised.
pub struct MatchReport {
    pub top: Vec<TopMatch>,
    pub verdict: Option<usize>,
}

/// How many of the most alike pictures are named.
pub const TOP: usize = 3;

/// A set of pictures of one size.
pub struct TemplateSet {
    pub size: u32,
    pub refs: Vec<RefItem>,
    pub query_mask: Vec<u8>,
}

/// The place of the picture that was recognised: the most alike one, unless
/// there is none, the part of the frame is too flat, or the picture is not alike
/// enough or not much more alike than the next.
pub open spec fn recognised(order: Seq<usize>, flat: bool, weak: bool, close: bool) -> Option<usize> {
    if flat || order.len() == 0 || weak || close {
        None
    } else {
        Some(order[0])
    }
}

impl TemplateSet {
    /// An empty set of pictures of a size; of a part of a frame count the pixels
    /// in a circle of the given radius.
    pub fn new(size: u32, radius: i32) -> (s: Self)
        requires
            size <= 0x1_0000,
            -0x1_0000 <= radius <= 0x1_0000,
        ensures
            s.size == size,
            s.refs@.len() == 0,
            s.query_mask@ == circle(size as int, radius as int),
    {
        TemplateSet { size, refs: Vec::new(), query_mask: circle_mask(size, radius) }
    }

    /// Adds a picture whose opaque pixels count.
    pub fn add_alpha_ref(&mut self, name: &str, file: &str, img: &RgbaPicture) -> (r: Prepared)
        requires
            img.wf(),
            fits(img.width, old(self).size),
        ensures
            final(self).size == old(self).size,
            final(self).query_mask == old(self).query_mask,
            final(self).refs@.len() == old(self).refs@.len() + 1,
            final(self).refs@.drop_last() == old(self).refs@,
            final(self).refs@.last().name@ == name@,
            final(self).refs@.last().file@ == file@,
            r.pixels@ == resampled(img.data@, img.width, img.height, old(self).size),
            r.mask@ == opaque_part(r.pixels@),
            r.pixels@.len() == 4 * (old(self).size * old(self).size),
    {
        let pixels: Vec<u8> = resize(&img.data, img.width, img.height, self.size);
        let mask: Vec<u8> = alpha_mask(&pixels);
        self.refs.push(RefItem { name: name.to_owned(), file: file.to_owned() });
        assert(self.refs@.drop_last() =~= old(self).refs@);
        Prepared { pixels, mask }
    }

    pub fn is_empty(&self) -> (yes: bool)
        ensures
            yes == (self.refs@.len() == 0),
    {
        self.refs.len() == 0
    }

    /// The pixels of a part of a frame, brought to the size of the set and fully
    /// opaque; nothing if the part is not in the frame.
    pub fn query(&self, frame: &Image, roi: (u32, u32, u32, u32)) -> (r: Option<Vec<u8>>)
        requires
            frame.wf(),
            roi.0 + roi.2 <= u32::MAX,
            roi.1 + roi.3 <= u32::MAX,
            roi.0 + roi.2 <= frame.width && roi.1 + roi.3 <= frame.height ==> fits(
                roi.2,
                self.size,
            ),
        ensures
            match r {
                Some(v) => {
                    &&& roi.0 + roi.2 <= frame.width
                    &&& roi.1 + roi.3 <= frame.height
                    &&& v@.len() == 4 * (self.size * self.size)
                    &&& exists|part: Image|
                        #[trigger] is_part(
                            *frame,
                            roi.0 as int,
                            roi.1 as int,
                            roi.2 as int,
                            roi.3 as int,
                            part,
                        ) && v@ == with_alpha(
                            resampled_frame(part.data@, roi.2, roi.3, self.size),
                        )
                },
                None => roi.0 + roi.2 > frame.width || roi.1 + roi.3 > frame.height,
            },
    {
        let (x, y, w, h): (u32, u32, u32, u32) = roi;
        if x + w > frame.width || y + h > frame.height {
            return None;
        }
        let part: Image = crop(frame, x, y, w, h);
        let pixels: Vec<u8> = resize_exact(&part.data, w, h, self.size);
        Some(add_alpha(&pixels))
    }

    /// The pictures from the most alike to the least, by the keys of the
    /// likenesses.
    pub fn order(&self, keys: &Vec<i64>) -> (r: Vec<usize>)
        requires
            keys@.len() == self.refs@.len(),
        ensures
            is_ranking(keys@, keys@.len() as int, r@),
    {
        rank(keys)
    }

    /// What a comparison with the set has shown, when the pictures are given from
    /// the most alike to the least: `flat` says that the part of the frame is too
    /// flat, `weak` that the most alike picture is not alike enough, and `close`
    /// that it is not much more alike than the next.
    pub fn report(&self, order: &Vec<usize>, flat: bool, weak: bool, close: bool) -> (r: MatchReport)
        requires
            forall|k: int| 0 <= k < order@.len() ==> (#[trigger] order@[k]) < self.refs@.len(),
        ensures
            r.verdict == recognised(order@, flat, weak, close),
            r.top@.len() == (if order@.len() < TOP {
                order@.len()
            } else {
                TOP as nat
            }),
            forall|k: int|
                0 <= k < r.top@.len() ==> {
                    &&& (#[trigger] r.top@[k]).place == order@[k]
                    &&& r.top@[k].name@ == self.refs@[order@[k] as int].name@
                    &&& r.top@[k].file@ == self.refs@[order@[k] as int].file@
                },
    {
        let mut top: Vec<TopMatch> = Vec::new();
        let mut k: usize = 0;
        while k < order.len() && k < TOP
            invariant
                k <= order@.len(),
                k <= TOP,
                top@.len() == k,
                forall|i: int| 0 <= i < order@.len() ==> (#[trigger] order@[i]) < self.refs@.len(),
                forall|i: int|
                    0 <= i < k ==> {
                        &&& (#[trigger] top@[i]).place == order@[i]
                        &&& top@[i].name@ == self.refs@[order@[i] as int].name@
                        &&& top@[i].file@ == self.refs@[order@[i] as int].file@
                    },
            decreases order@.len() - k,
        {
            let place: usize = order[k];
            top.push(
                TopMatch {
                    name: self.refs[place].name.clone(),
                    file: self.refs[place].file.clone(),
                    place,
                },
            );
            k += 1;
        }
        let verdict: Option<usize> = if flat || order.len() == 0 || weak || close {
            None
        } else {
            Some(order[0])
        };
        MatchReport { top, verdict }
    }
}

/// Nobody is recognised in a part of a frame that is too flat, too little alike,
/// or alike to two; and else it is the most alike picture, if there is one.
pub proof fn law_recognised_when_nothing_speaks_against_it(
    order: Seq<usize>,
    flat: bool,
    weak: bool,
    close: bool,
)
    ensures
        flat ==> recognised(order, flat, weak, close) is None,
        weak ==> recognised(order, flat, weak, close) is None,
        close ==> recognised(order, flat, weak, close) is None,
        order.len() == 0 ==> recognised(order, flat, weak, close) is None,
        order.len() > 0 && !flat && !weak && !close ==> recognised(order, flat, weak, close)
            == Some(order[0]),
{
}

/// The picture that is recognised is at least as alike as every other one, and of
/// two that are equally alike the first.
pub proof fn law_recognised_is_most_alike(
    keys: Seq<i64>,
    order: Seq<usize>,
    flat: bool,
    weak: bool,
    close: bool,
    k: int,
)
    requires
        is_ranking(keys, keys.len() as int, order),
        recognised(order, flat, weak, close) is Some,
        0 <= k < keys.len() <= usize::MAX,
    ensures
        ({
            let best = recognised(order, flat, weak, close)->0 as int;
            &&& 0 <= best < keys.len()
            &&& keys[k] <= keys[best]
            &&& keys[k] == keys[best] ==> best <= k
        }),
{
    lemma_ranking_complete(keys, keys.len() as int, order, k);
    let p = choose|p: int| 0 <= p < keys.len() && #[trigger] order[p] == k;
    if p > 0 {
        assert(outranks(keys, order[0] as int, order[p] as int));
    }
}

/// One of the most alike pictures in words: its number, its name, its file and
/// its likeness.
pub open spec fn match_text(k: int, name: Seq<char>, file: Seq<char>, score: Seq<char>) -> Seq<char> {
    " "@ + decimal((k + 1) as nat) + "."@ + name + "("@ + file + " "@ + score + ")"@
}

/// The most alike pictures in words, up to the given one.
pub open spec fn matches_text(top: Seq<TopMatch>, scores: Seq<Seq<char>>, n: int) -> Seq<char>
    decreases n,
{
    if n <= 0 {
        seq![]
    } else {
        matches_text(top, scores, n - 1) + match_text(
            n - 1,
            top[n - 1].name@,
            top[n - 1].file@,
            scores[n - 1],
        )
    }
}

impl MatchReport {
    /// What a comparison has shown, in words: how varied the part of the frame is,
    /// and the pictures that are most alike with their likenesses.
    pub fn text(&self, var: &str, scores: &Vec<String>) -> (s: String)
        requires
            scores@.len() == self.top@.len(),
            self.top@.len() <= TOP,
        ensures
            s@ == "var: "@ + var@ + "  score:"@ + matches_text(
                self.top@,
                texts(scores@),
                self.top@.len() as int,
            ),
    {
        let mut s: String = "var: ".to_owned();
        s.append(var);
        s.append("  score:");
        let ghost head = s@;
        let mut k: usize = 0;
        assert(head + matches_text(self.top@, texts(scores@), 0) =~= head);
        while k < self.top.len()
            invariant
                k <= self.top@.len(),
                self.top@.len() <= TOP,
                scores@.len() == self.top@.len(),
                s@ == head + matches_text(self.top@, texts(scores@), k as int),
            decreases self.top@.len() - k,
        {
            let mut part: String = " ".to_owned();
            part.append(decimal_text(k as u64 + 1).as_str());
            part.append(".");
            part.append(self.top[k].name.as_str());
            part.append("(");
            part.append(self.top[k].file.as_str());
            part.append(" ");
            part.append(scores[k].as_str());
            part.append(")");
            let ghost had = s@;
            s.append(part.as_str());
            proof {
                let list = texts(scores@);
                assert(list[k as int] == scores@[k as int]@);
                assert(part@ =~= match_text(
                    k as int,
                    self.top@[k as int].name@,
                    self.top@[k as int].file@,
                    list[k as int],
                ));
                assert(s@ =~= head + matches_text(self.top@, list, k + 1));
            }
            k += 1;
        }
        s
    }
}

/// The middle of a square always counts.
pub proof fn law_middle_counts(size: int, radius: int)
    requires
        size > 0,
    ensures
        circle(size, radius)[cell(size, size / 2, size / 2)] == 255,
{
    lemma_cell(size, size, size / 2, size / 2);
    assert(radius * radius >= 0) by (nonlinear_arith);
    let dx = column(size, cell(size, size / 2, size / 2)) - size / 2;
    assert(dx == 0);
    assert(dx * dx == 0) by (nonlinear_arith)
        requires
            dx == 0,
    ;
}

// ---------------------------------------------------------------------------
// Laws of the pixels that count
// ---------------------------------------------------------------------------

/// The pixel in column `x` of row `y` of a square counts exactly when it is at most
/// the radius away from the middle.
pub proof fn law_circle_by_distance(size: int, radius: int, x: int, y: int)
    requires
        0 <= x < size,
        0 <= y < size,
    ensures
        circle(size, radius).len() == size * size,
        circle(size, radius)[y * size + x] == (if (x - size / 2) * (x - size / 2) + (y - size / 2)
            * (y - size / 2) <= radius * radius {
            255u8
        } else {
            0u8
        }),
{
    lemma_cell(size, size, x, y);
}

/// A pixel of a picture counts exactly when its fourth channel is above one half.
pub proof fn law_opaque_pixels_count(rgba: Seq<u8>, p: int)
    requires
        0 <= p,
        4 * p + 3 < rgba.len(),
    ensures
        opaque_part(rgba).len() == rgba.len() / 4,
        opaque_part(rgba)[p] == 255 <==> rgba[4 * p + 3] >= 129,
        opaque_part(rgba)[p] == 0 <==> rgba[4 * p + 3] <= 128,
{
}

/// A pixel keeps its three channels and gets a fourth one that is full.
pub proof fn law_channels_are_kept(rgb: Seq<u8>, p: int, c: int)
    requires
        0 <= p,
        3 * p + 2 < rgb.len(),
        0 <= c < 3,
    ensures
        with_alpha(rgb).len() == 4 * (rgb.len() / 3),
        with_alpha(rgb)[4 * p + c] == rgb[3 * p + c],
        with_alpha(rgb)[4 * p + 3] == 255,
{
    let k = 4 * p + c;
    assert(k / 4 == p && k % 4 == c);
    assert((4 * p + 3) % 4 == 3);
}

/// What is said of the most alike pictures: each with its number, its name, its file
/// and its likeness, one behind the other.
pub proof fn law_matches_in_words(top: Seq<TopMatch>, scores: Seq<Seq<char>>, n: int)
    requires
        0 <= n,
    ensures
        matches_text(top, scores, 0).len() == 0,
        matches_text(top, scores, n + 1) == matches_text(top, scores, n) + (" "@ + decimal(
            (n + 1) as nat,
        ) + "."@ + top[n].name@ + "("@ + top[n].file@ + " "@ + scores[n] + ")"@),
{
}

/// Three of the most alike pictures are named; a picture has four bytes for each of
/// its pixels.
pub proof fn law_how_many_are_named(p: RgbaPicture)
    ensures
        TOP == 3,
        p.wf() <==> p.data@.len() == 4 * (p.width * p.height),
{
}

} // verus!
