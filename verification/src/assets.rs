//! The pictures that tasks look for: where they lie in the picture files, by
//! the annotations of the game.

use vstd::prelude::*;
use crate::grid::{cell, column, lemma_cell, row};
use crate::json::{
    as_length, as_number, as_whole, get_item, get_length, get_member, get_member_text, get_number,
    get_u64, item, json_document, json_nodes, member, member_text, parse_json, under, JsonStep,
    Nodes, Number,
};
use crate::text::text_of;
use crate::vision::{get_pixel, Image};

verus! {

/// A picture: its name, the file that it is in, and where it lies there, as
/// left, top, width and height.
pub struct Asset {
    pub name: String,
    pub file: String,
    pub bbox: [Number; 4],
}

/// A picture as mathematical values.
pub struct AssetView {
    pub name: Seq<char>,
    pub file: Seq<char>,
    pub bbox: Seq<Number>,
}

impl View for Asset {
    type V = AssetView;

    open spec fn view(&self) -> AssetView {
        AssetView { name: self.name@, file: self.file@, bbox: self.bbox@ }
    }
}

/// The pictures of a list.
pub open spec fn views(list: Seq<Asset>) -> Seq<AssetView> {
    list.map_values(|a: Asset| a@)
}

/// A number with the text that it stands for.
pub type Entry = (u64, Seq<char>);

/// An unsigned integer member, if there is one.
pub open spec fn member_id(m: Nodes, key: Seq<char>) -> Option<u64> {
    match member(m, key) {
        Some(m) => match as_whole(m, 0, u64::MAX as int) {
            Some(n) => Some(n as u64),
            None => None,
        },
        None => None,
    }
}

/// The number and the text of an item, if it has both.
pub open spec fn entry_in(m: Nodes, key: Seq<char>) -> Option<Entry> {
    match (member_id(m, "id"@), member_text(m, key)) {
        (Some(id), Some(s)) => Some((id, s)),
        _ => None,
    }
}

/// The numbers and texts of the first `n` items of a list, if all have both.
pub open spec fn entries_before(m: Nodes, key: Seq<char>, n: nat) -> Option<Seq<Entry>>
    decreases n,
{
    if n == 0 {
        Some(seq![])
    } else {
        match (
            entries_before(m, key, (n - 1) as nat),
            entry_in(under(m, JsonStep::Item(n - 1)), key),
        ) {
            (Some(list), Some(e)) => Some(list.push(e)),
            _ => None,
        }
    }
}

/// The numbers and texts of a member that is a list, if all items have both.
pub open spec fn entries_in(m: Nodes, list: Seq<char>, key: Seq<char>) -> Option<Seq<Entry>> {
    match member(m, list) {
        None => None,
        Some(l) => match as_length(l) {
            None => None,
            Some(n) => entries_before(l, key, n),
        },
    }
}

/// The text that a number stands for: that of the last entry with the number.
pub open spec fn text_for(list: Seq<Entry>, id: u64) -> Option<Seq<char>>
    decreases list.len(),
{
    if list.len() == 0 {
        None
    } else if list.last().0 == id {
        Some(list.last().1)
    } else {
        text_for(list.drop_last(), id)
    }
}

/// The number at a place of a list, if there is one.
pub open spec fn side(m: Nodes, i: int) -> Option<Number> {
    match item(m, i) {
        Some(x) => as_number(x),
        None => None,
    }
}

/// The four numbers at the front of a list, if they are there.
pub open spec fn box_in(m: Nodes) -> Option<Seq<Number>> {
    match (side(m, 0), side(m, 1), side(m, 2), side(m, 3)) {
        (Some(a), Some(b), Some(c), Some(d)) => Some(seq![a, b, c, d]),
        _ => None,
    }
}

/// The picture of an annotation, if all of it is there.
pub open spec fn asset_in(m: Nodes, names: Seq<Entry>, files: Seq<Entry>) -> Option<AssetView> {
    match (member_id(m, "category_id"@), member_id(m, "image_id"@), member(m, "bbox"@)) {
        (Some(category), Some(image), Some(bbox)) => match (
            text_for(names, category),
            text_for(files, image),
            box_in(bbox),
        ) {
            (Some(name), Some(file), Some(bbox)) => Some(AssetView { name, file, bbox }),
            _ => None,
        },
        _ => None,
    }
}

/// The pictures of the first `n` annotations, if all of them are there.
pub open spec fn assets_before(
    m: Nodes,
    names: Seq<Entry>,
    files: Seq<Entry>,
    n: nat,
) -> Option<Seq<AssetView>>
    decreases n,
{
    if n == 0 {
        Some(seq![])
    } else {
        match (
            assets_before(m, names, files, (n - 1) as nat),
            asset_in(under(m, JsonStep::Item(n - 1)), names, files),
        ) {
            (Some(list), Some(a)) => Some(list.push(a)),
            _ => None,
        }
    }
}

/// The pictures that a document describes, in the order of its annotations, if
/// all of them are there.
pub open spec fn assets_in(m: Nodes) -> Option<Seq<AssetView>> {
    match (entries_in(m, "categories"@, "name"@), entries_in(m, "images"@, "file_name"@)) {
        (Some(names), Some(files)) => match member(m, "annotations"@) {
            None => None,
            Some(l) => match as_length(l) {
                None => None,
                Some(n) => assets_before(l, names, files, n),
            },
        },
        _ => None,
    }
}

/// The entries of a list.
pub open spec fn entry_views(list: Seq<(u64, String)>) -> Seq<Entry> {
    list.map_values(|p: (u64, String)| (p.0, p.1@))
}

fn read_id(v: &serde_json::Value, key: &str) -> (r: Option<u64>)
    ensures
        r == member_id(json_nodes(*v), key@),
{
    match get_member(v, key) {
        Some(x) => get_u64(x),
        None => None,
    }
}

proof fn lemma_entries_end(m: Nodes, key: Seq<char>, i: nat, n: nat)
    requires
        i <= n,
        entries_before(m, key, i) is None,
    ensures
        entries_before(m, key, n) is None,
    decreases n,
{
    if i < n {
        lemma_entries_end(m, key, i, (n - 1) as nat);
    }
}

proof fn lemma_assets_end(m: Nodes, names: Seq<Entry>, files: Seq<Entry>, i: nat, n: nat)
    requires
        i <= n,
        assets_before(m, names, files, i) is None,
    ensures
        assets_before(m, names, files, n) is None,
    decreases n,
{
    if i < n {
        lemma_assets_end(m, names, files, i, (n - 1) as nat);
    }
}

fn read_entries(v: &serde_json::Value, list: &str, key: &str) -> (r: Option<Vec<(u64, String)>>)
    ensures
        entries_in(json_nodes(*v), list@, key@) == match r {
            Some(l) => Some(entry_views(l@)),
            None => None,
        },
{
    let items: &serde_json::Value = match get_member(v, list) {
        Some(items) => items,
        None => {
            return None;
        },
    };
    let n: usize = match get_length(items) {
        Some(n) => n,
        None => {
            return None;
        },
    };
    let ghost m = json_nodes(*items);
    let mut r: Vec<(u64, String)> = Vec::new();
    let mut i: usize = 0;
    assert(entry_views(r@) =~= seq![]);
    while i < n
        invariant
            i <= n,
            m == json_nodes(*items),
            as_length(m) == Some(n as nat),
            member(json_nodes(*v), list@) == Some(m),
            entries_before(m, key@, i as nat) == Some(entry_views(r@)),
        decreases n - i,
    {
        let ghost had = entry_views(r@);
        let x: &serde_json::Value = match get_item(items, i) {
            Some(x) => x,
            None => {
                assert(false);
                return None;
            },
        };
        match (read_id(x, "id"), get_member_text(x, key)) {
            (Some(id), Some(s)) => {
                r.push((id, s));
                assert(entry_views(r@) =~= had.push((id, s@)));
            },
            _ => {
                proof {
                    assert(entries_before(m, key@, (i + 1) as nat) is None);
                    lemma_entries_end(m, key@, (i + 1) as nat, n as nat);
                }
                return None;
            },
        }
        i += 1;
    }
    Some(r)
}

fn find_text(list: &Vec<(u64, String)>, id: u64) -> (r: Option<String>)
    ensures
        text_of(r) == text_for(entry_views(list@), id),
{
    let ghost all = entry_views(list@);
    let mut i: usize = list.len();
    assert(all.take(i as int) =~= all);
    while i > 0
        invariant
            i <= list@.len(),
            all == entry_views(list@),
            text_for(all.take(i as int), id) == text_for(all, id),
        decreases i,
    {
        proof {
            assert(all.take(i as int).last() == (list@[i - 1].0, list@[i - 1].1@));
            assert(all.take(i as int).drop_last() =~= all.take(i - 1));
        }
        i -= 1;
        if list[i].0 == id {
            return Some(list[i].1.clone());
        }
    }
    assert(all.take(0) =~= seq![]);
    None
}

fn read_side(v: &serde_json::Value, i: usize) -> (r: Option<Number>)
    ensures
        r == side(json_nodes(*v), i as int),
{
    match get_item(v, i) {
        Some(x) => get_number(x),
        None => None,
    }
}

fn read_asset(v: &serde_json::Value, names: &Vec<(u64, String)>, files: &Vec<(u64, String)>) -> (r:
    Option<Asset>)
    ensures
        asset_in(json_nodes(*v), entry_views(names@), entry_views(files@)) == match r {
            Some(a) => Some(a@),
            None => None,
        },
{
    let bbox: &serde_json::Value = match get_member(v, "bbox") {
        Some(bbox) => bbox,
        None => {
            return None;
        },
    };
    match (read_id(v, "category_id"), read_id(v, "image_id")) {
        (Some(category), Some(image)) => {
            match (find_text(names, category), find_text(files, image)) {
                (Some(name), Some(file)) => {
                    match (
                        read_side(bbox, 0),
                        read_side(bbox, 1),
                        read_side(bbox, 2),
                        read_side(bbox, 3),
                    ) {
                        (Some(a), Some(b), Some(c), Some(d)) => {
                            let asset = Asset { name, file, bbox: [a, b, c, d] };
                            assert(asset.bbox@ =~= seq![a, b, c, d]);
                            Some(asset)
                        },
                        _ => None,
                    }
                },
                _ => None,
            }
        },
        _ => None,
    }
}

/// The pictures that a JSON value describes, if all of them are there.
pub fn assets_of(v: &serde_json::Value) -> (r: Option<Vec<Asset>>)
    ensures
        assets_in(json_nodes(*v)) == match r {
            Some(l) => Some(views(l@)),
            None => None,
        },
{
    let names: Vec<(u64, String)> = match read_entries(v, "categories", "name") {
        Some(names) => names,
        None => {
            return None;
        },
    };
    let files: Vec<(u64, String)> = match read_entries(v, "images", "file_name") {
        Some(files) => files,
        None => {
            return None;
        },
    };
    let items: &serde_json::Value = match get_member(v, "annotations") {
        Some(items) => items,
        None => {
            return None;
        },
    };
    let n: usize = match get_length(items) {
        Some(n) => n,
        None => {
            return None;
        },
    };
    let ghost m = json_nodes(*items);
    let ghost ns = entry_views(names@);
    let ghost fs = entry_views(files@);
    let mut r: Vec<Asset> = Vec::new();
    let mut i: usize = 0;
    assert(views(r@) =~= seq![]);
    while i < n
        invariant
            i <= n,
            m == json_nodes(*items),
            ns == entry_views(names@),
            fs == entry_views(files@),
            as_length(m) == Some(n as nat),
            assets_in(json_nodes(*v)) == assets_before(m, ns, fs, n as nat),
            assets_before(m, ns, fs, i as nat) == Some(views(r@)),
        decreases n - i,
    {
        let ghost had = views(r@);
        let x: &serde_json::Value = match get_item(items, i) {
            Some(x) => x,
            None => {
                assert(false);
                return None;
            },
        };
        match read_asset(x, &names, &files) {
            Some(a) => {
                let ghost av = a@;
                r.push(a);
                assert(views(r@) =~= had.push(av));
            },
            None => {
                proof {
                    assert(assets_before(m, ns, fs, (i + 1) as nat) is None);
                    lemma_assets_end(m, ns, fs, (i + 1) as nat, n as nat);
                }
                return None;
            },
        }
        i += 1;
    }
    Some(r)
}

/// Why the pictures are not known.
#[derive(Debug, Clone, Copy, PartialEq, Eq, Structural)]
pub enum AssetError {
    /// The annotations are no JSON.
    NotJson,
    /// Something is missing in the annotations.
    Incomplete,
}

/// Reads the annotations of a game from their text.
pub fn load_assets(text: &str) -> (r: Result<Vec<Asset>, AssetError>)
    ensures
        match json_document(text@) {
            None => r == Err::<Vec<Asset>, AssetError>(AssetError::NotJson),
            Some(m) => match assets_in(m) {
                None => r == Err::<Vec<Asset>, AssetError>(AssetError::Incomplete),
                Some(list) => r matches Ok(l) && views(l@) == list,
            },
        },
{
    match parse_json(text) {
        Err(_) => Err(AssetError::NotJson),
        Ok(v) => match assets_of(&v) {
            Some(list) => Ok(list),
            None => Err(AssetError::Incomplete),
        },
    }
}

/// The longest side of a picture that is brought to another size, before and
/// behind. The weights of the pixels are computed in single precision: up to this
/// length the middle of a new pixel is at most a thirtysecond of a pixel off, and
/// the weights around it have a sum well above zero.
pub const LONGEST_SIDE: u32 = 0x4_0000;

/// Whether a picture can be brought to another size: no side is too long, and
/// there is room for the new picture and for the columns that are resampled
/// first.
pub open spec fn can_scale(width: u32, height: u32, new_width: u32, new_height: u32) -> bool {
    &&& width <= LONGEST_SIDE
    &&& height <= LONGEST_SIDE
    &&& new_width <= LONGEST_SIDE
    &&& new_height <= LONGEST_SIDE
    &&& 16 * (width * new_height) <= isize::MAX
    &&& 6 * (new_width * new_height) <= isize::MAX
}

/// Whether `out` can be what `image::DynamicImage::resize_exact` makes of a
/// picture of 24-bit pixels with the filter `Lanczos3`. The same picture may come
/// out differently on another machine, because the weights are computed with the
/// sine of the platform.
pub uninterp spec fn scale_outcome(
    data: Seq<u8>,
    width: u32,
    height: u32,
    new_width: u32,
    new_height: u32,
    out: Seq<u8>,
) -> bool;

/// Calls `image::DynamicImage::resize_exact` with the filter `Lanczos3` on 24-bit
/// pixels. Trusted: the result is a possible one for these arguments, and has as
/// many pixels as the new size. Which values they have is left unsaid. The sides
/// are bounded because the call divides by the sum of the weights: on sides of
/// many million pixels the middle of a new pixel is rounded so far off that all
/// weights are zero, and the call panics.
#[verifier::external_body]
fn resize_picture(
    data: &Vec<u8>,
    width: u32,
    height: u32,
    new_width: u32,
    new_height: u32,
) -> (r: Vec<u8>)
    requires
        3 * (width * height) <= data@.len(),
        can_scale(width, height, new_width, new_height),
    ensures
        scale_outcome(data@, width, height, new_width, new_height, r@),
        r@.len() == 3 * (new_width * new_height),
{
    let img = image::RgbImage::from_raw(width, height, data.clone()).unwrap();
    let filter = image::imageops::FilterType::Lanczos3;
    image::DynamicImage::ImageRgb8(img).resize_exact(new_width, new_height, filter).into_bytes()
}

/// A picture, brought to another size.
pub fn scale_picture(img: &Image, width: u32, height: u32) -> (r: Image)
    requires
        img.wf(),
        can_scale(img.width, img.height, width, height),
    ensures
        r.wf(),
        r.width == width,
        r.height == height,
        r.data@.len() == 3 * (width * height),
        scale_outcome(img.data@, img.width, img.height, width, height, r.data@),
{
    Image {
        width,
        height,
        data: resize_picture(&img.data, img.width, img.height, width, height),
    }
}

/// Whether `out` can be what `image::DynamicImage::resize_exact` makes of a
/// picture of 48-bit pixels with the filter `Lanczos3`, when its result is cut to
/// 24-bit pixels. The same picture may come out differently on another machine.
pub uninterp spec fn deep_outcome(
    data: Seq<u16>,
    width: u32,
    height: u32,
    new_width: u32,
    new_height: u32,
    out: Seq<u8>,
) -> bool;

/// Calls `image::DynamicImage::resize_exact` with the filter `Lanczos3` on 48-bit
/// pixels, and converts what comes out to 24-bit pixels. Trusted: as for
/// `resize_picture`, with the sides bounded for the same reason.
#[verifier::external_body]
fn resize_deep_picture(
    data: &Vec<u16>,
    width: u32,
    height: u32,
    new_width: u32,
    new_height: u32,
) -> (r: Vec<u8>)
    requires
        3 * (width * height) <= data@.len(),
        can_scale(width, height, new_width, new_height),
    ensures
        deep_outcome(data@, width, height, new_width, new_height, r@),
        r@.len() == 3 * (new_width * new_height),
{
    let img = image::ImageBuffer::from_raw(width, height, data.clone()).unwrap();
    let filter = image::imageops::FilterType::Lanczos3;
    let new = image::DynamicImage::ImageRgb16(img).resize_exact(new_width, new_height, filter);
    new.to_rgb8().into_raw()
}

/// A picture of 48-bit pixels, brought to another size and cut to 24-bit pixels.
pub fn scale_deep_picture(
    data: &Vec<u16>,
    width: u32,
    height: u32,
    new_width: u32,
    new_height: u32,
) -> (r: Image)
    requires
        3 * (width * height) <= data@.len(),
        can_scale(width, height, new_width, new_height),
    ensures
        r.wf(),
        r.width == new_width,
        r.height == new_height,
        r.data@.len() == 3 * (new_width * new_height),
        deep_outcome(data@, width, height, new_width, new_height, r.data@),
{
    Image {
        width: new_width,
        height: new_height,
        data: resize_deep_picture(data, width, height, new_width, new_height),
    }
}

/// A picture of grey pixels, row by row.
pub struct GrayImage {
    pub width: u32,
    pub height: u32,
    pub data: Vec<u8>,
}

/// The grey of a colour: the mean of its channels, cut to an integer.
pub open spec fn grey(r: u8, g: u8, b: u8) -> u8 {
    ((r + g + b) / 3) as u8
}

/// The grey of a colour.
pub fn gray(r: u8, g: u8, b: u8) -> (v: u8)
    ensures
        v == grey(r, g, b),
{
    ((r as u32 + g as u32 + b as u32) / 3) as u8
}

/// Whether a part of a picture lies in it. A part without pixels lies anywhere.
pub open spec fn lies_in(img: Image, x: int, y: int, w: int, h: int) -> bool {
    w == 0 || h == 0 || (x + w <= img.width && y + h <= img.height)
}

/// The greys of a part of a picture, row by row.
pub open spec fn greys(img: Image, x: int, y: int, w: int, h: int) -> Seq<u8> {
    Seq::new(
        (w * h) as nat,
        |k: int|
            {
                let (i, j) = (x + column(w, k), y + row(w, k));
                grey(img.channel(i, j, 0), img.channel(i, j, 1), img.channel(i, j, 2))
            },
    )
}

/// The part of a picture at the given place, in grey; nothing if it does not lie
/// in the picture.
pub fn gray_part(img: &Image, x: u32, y: u32, w: u32, h: u32) -> (r: Option<GrayImage>)
    requires
        img.wf(),
    ensures
        r is Some <==> lies_in(*img, x as int, y as int, w as int, h as int),
        r matches Some(p) ==> p.width == w && p.height == h && p.data@ == greys(
            *img,
            x as int,
            y as int,
            w as int,
            h as int,
        ),
{
    let ghost all = greys(*img, x as int, y as int, w as int, h as int);
    let mut data: Vec<u8> = Vec::new();
    if w == 0 || h == 0 {
        assert(w * h == 0) by (nonlinear_arith)
            requires
                w == 0 || h == 0,
        ;
        assert(data@ =~= all);
        return Some(GrayImage { width: w, height: h, data });
    }
    if x > img.width || y > img.height || w > img.width - x || h > img.height - y {
        return None;
    }
    assert(w * h >= 0) by (nonlinear_arith);
    assert(0 * w == 0) by (nonlinear_arith);
    let mut j: u32 = 0;
    while j < h
        invariant
            img.wf(),
            x + w <= img.width,
            y + h <= img.height,
            j <= h,
            all == greys(*img, x as int, y as int, w as int, h as int),
            all.len() == w * h,
            data@.len() == j * w,
            forall|k: int| 0 <= k < data@.len() ==> (#[trigger] data@[k]) == all[k],
        decreases h - j,
    {
        let mut i: u32 = 0;
        while i < w
            invariant
                img.wf(),
                x + w <= img.width,
                y + h <= img.height,
                j < h,
                i <= w,
                all == greys(*img, x as int, y as int, w as int, h as int),
                all.len() == w * h,
                data@.len() == j * w + i,
                forall|k: int| 0 <= k < data@.len() ==> (#[trigger] data@[k]) == all[k],
            decreases w - i,
        {
            let p: [u8; 3] = get_pixel(img, x + i, y + j);
            let v: u8 = gray(p[0], p[1], p[2]);
            proof {
                lemma_cell(w as int, h as int, i as int, j as int);
                assert(all[cell(w as int, i as int, j as int)] == v);
            }
            data.push(v);
            i += 1;
        }
        assert((j + 1) * w == j * w + w) by (nonlinear_arith);
        j += 1;
    }
    assert(h * w == w * h) by (nonlinear_arith);
    assert(data@ =~= all);
    Some(GrayImage { width: w, height: h, data })
}

/// Every picture has a name and a file out of the lists of the document.
pub proof fn law_assets_are_listed(m: Nodes, names: Seq<Entry>, files: Seq<Entry>, n: nat, i: int)
    requires
        assets_before(m, names, files, n) is Some,
        0 <= i < n,
    ensures
        assets_before(m, names, files, n)->0.len() == n,
        exists|k: int|
            0 <= k < names.len() && (#[trigger] names[k]).1 == assets_before(
                m,
                names,
                files,
                n,
            )->0[i].name,
        exists|k: int|
            0 <= k < files.len() && (#[trigger] files[k]).1 == assets_before(
                m,
                names,
                files,
                n,
            )->0[i].file,
    decreases n,
{
    let before = assets_before(m, names, files, (n - 1) as nat)->0;
    lemma_assets_count(m, names, files, (n - 1) as nat);
    if i < n - 1 {
        law_assets_are_listed(m, names, files, (n - 1) as nat, i);
    } else {
        let a = under(m, JsonStep::Item(n - 1));
        lemma_text_for(names, member_id(a, "category_id"@)->0);
        lemma_text_for(files, member_id(a, "image_id"@)->0);
    }
}

proof fn lemma_assets_count(m: Nodes, names: Seq<Entry>, files: Seq<Entry>, n: nat)
    requires
        assets_before(m, names, files, n) is Some,
    ensures
        assets_before(m, names, files, n)->0.len() == n,
    decreases n,
{
    if n > 0 {
        lemma_assets_count(m, names, files, (n - 1) as nat);
    }
}

proof fn lemma_text_for(list: Seq<Entry>, id: u64)
    requires
        text_for(list, id) is Some,
    ensures
        exists|k: int|
            0 <= k < list.len() && (#[trigger] list[k]).1 == text_for(list, id)->0 && list[k].0
                == id,
    decreases list.len(),
{
    if list.last().0 == id {
        assert(list[list.len() - 1].0 == id);
    } else {
        lemma_text_for(list.drop_last(), id);
        let k = choose|k: int|
            0 <= k < list.drop_last().len() && (#[trigger] list.drop_last()[k]).1 == text_for(
                list,
                id,
            )->0 && list.drop_last()[k].0 == id;
        assert(list[k] == list.drop_last()[k]);
    }
}

// ---------------------------------------------------------------------------
// Laws of the annotations and the pictures
// ---------------------------------------------------------------------------

/// A number stands for the text of the last entry with it, and for none if there is
/// no such entry.
pub proof fn law_last_entry_counts(list: Seq<Entry>, id: u64, other: u64, s: Seq<char>)
    ensures
        text_for(Seq::empty(), id) is None,
        text_for(list.push((id, s)), id) == Some(s),
        other != id ==> text_for(list.push((other, s)), id) == text_for(list, id),
{
    assert(list.push((id, s)).drop_last() =~= list);
    assert(list.push((other, s)).drop_last() =~= list);
}

/// The entries of a list are those of its items, in their order; an item without a
/// number or a text spoils them all.
pub proof fn law_entries_of_items(m: Nodes, key: Seq<char>, n: nat, list: Seq<char>)
    ensures
        entries_before(m, key, 0) == Some(Seq::<Entry>::empty()),
        ({
            let it = under(m, JsonStep::Item(n as int));
            let before = entries_before(m, key, n);
            let good = member_id(it, "id"@) is Some && member_text(it, key) is Some;
            &&& before is Some && good ==> entries_before(m, key, n + 1) == Some(
                before->0.push((member_id(it, "id"@)->0, member_text(it, key)->0)),
            )
            &&& before is None || !good ==> entries_before(m, key, n + 1) is None
        }),
        member(m, list) is None ==> entries_in(m, list, key) is None,
        member(m, list) matches Some(l) ==> {
            &&& as_length(l) is None ==> entries_in(m, list, key) is None
            &&& as_length(l) matches Some(k) ==> entries_in(m, list, key) == entries_before(
                l,
                key,
                k,
            )
        },
{
}

/// The number of a member is a whole one that is not negative.
pub proof fn law_numbers_of_members(m: Nodes, key: Seq<char>)
    ensures
        member_id(m, key) is Some <==> member(m, key) is Some && as_whole(
            member(m, key)->0,
            0,
            0xFFFF_FFFF_FFFF_FFFF,
        ) is Some,
        member_id(m, key) matches Some(n) ==> as_whole(
            member(m, key)->0,
            0,
            0xFFFF_FFFF_FFFF_FFFF,
        ) == Some(n as int),
{
}

/// The picture of an annotation has the name of its category, the file of its image
/// and the four numbers of its box, in their order; it is missing if any of them is.
pub proof fn law_picture_of_an_annotation(m: Nodes, names: Seq<Entry>, files: Seq<Entry>)
    ensures
        ({
            let name = text_for(names, member_id(m, "category_id"@)->0);
            let file = text_for(files, member_id(m, "image_id"@)->0);
            let bbox = member(m, "bbox"@);
            let good = {
                &&& member_id(m, "category_id"@) is Some && name is Some
                &&& member_id(m, "image_id"@) is Some && file is Some
                &&& bbox is Some
                &&& forall|i: int| 0 <= i < 4 ==> #[trigger] side(bbox->0, i) is Some
            };
            &&& asset_in(m, names, files) is Some <==> good
            &&& asset_in(m, names, files) matches Some(a) ==> {
                &&& a.name == name->0
                &&& a.file == file->0
                &&& a.bbox.len() == 4
                &&& forall|i: int| 0 <= i < 4 ==> #[trigger] side(bbox->0, i) == Some(a.bbox[i])
            }
        }),
        forall|b: Nodes, i: int|
            #![trigger side(b, i)]
            side(b, i) is Some <==> item(b, i) is Some && as_number(item(b, i)->0) is Some,
        forall|b: Nodes, i: int|
            #![trigger side(b, i)]
            side(b, i) is Some ==> side(b, i) == as_number(item(b, i)->0),
{
    let bbox = member(m, "bbox"@);
    if bbox is Some {
        assert(box_in(bbox->0) is Some <==> side(bbox->0, 0) is Some && side(bbox->0, 1) is Some
            && side(bbox->0, 2) is Some && side(bbox->0, 3) is Some);
    }
}

/// The pictures are those of the annotations, in their order, each by the names and
/// files of the same document; an annotation without a picture spoils them all.
pub proof fn law_pictures_of_annotations(
    m: Nodes,
    names: Seq<Entry>,
    files: Seq<Entry>,
    n: nat,
)
    ensures
        assets_before(m, names, files, 0) == Some(Seq::<AssetView>::empty()),
        ({
            let a = asset_in(under(m, JsonStep::Item(n as int)), names, files);
            let before = assets_before(m, names, files, n);
            &&& before is Some && a is Some ==> assets_before(m, names, files, n + 1) == Some(
                before->0.push(a->0),
            )
            &&& before is None || a is None ==> assets_before(m, names, files, n + 1) is None
        }),
        ({
            let ns = entries_in(m, "categories"@, "name"@);
            let fs = entries_in(m, "images"@, "file_name"@);
            let l = member(m, "annotations"@);
            &&& ns is None || fs is None || l is None || as_length(l->0) is None ==> assets_in(
                m,
            ) is None
            &&& ns is Some && fs is Some && l is Some && as_length(l->0) is Some ==> assets_in(m)
                == assets_before(l->0, ns->0, fs->0, as_length(l->0)->0)
        }),
{
}

/// A part of a picture in grey has the mean of the three bytes of each pixel, cut to
/// an integer, row by row.
pub proof fn law_grey_by_bytes(img: Image, x: int, y: int, w: int, h: int, i: int, j: int)
    requires
        0 <= i < w,
        0 <= j < h,
    ensures
        greys(img, x, y, w, h).len() == w * h,
        ({
            let at = 3 * ((y + j) * img.width + (x + i));
            let g = greys(img, x, y, w, h)[j * w + i];
            3 * g <= img.data@[at] + img.data@[at + 1] + img.data@[at + 2] < 3 * g + 3
        }),
{
    lemma_cell(w, h, i, j);
}

/// A part lies in a picture exactly when it has no pixel or ends inside it.
pub proof fn law_parts_inside(img: Image, x: int, y: int, w: int, h: int)
    ensures
        lies_in(img, x, y, w, h) <==> w == 0 || h == 0 || (x <= img.width - w && y <= img.height
            - h),
{
}

/// A picture can be scaled exactly when no side has more than 262144 pixels and
/// there is room for what is computed.
pub proof fn law_what_can_be_scaled(width: u32, height: u32, new_width: u32, new_height: u32)
    ensures
        can_scale(width, height, new_width, new_height) <==> {
            &&& width <= 262144 && height <= 262144
            &&& new_width <= 262144 && new_height <= 262144
            &&& 16 * (width * new_height) <= isize::MAX
            &&& 6 * (new_width * new_height) <= isize::MAX
        },
{
}

/// What pictures and entries are seen as is what they hold.
pub proof fn law_pictures_are_seen_as_they_are(
    a: Asset,
    list: Seq<Asset>,
    entries: Seq<(u64, String)>,
    i: int,
)
    ensures
        a@.name == a.name@,
        a@.file == a.file@,
        a@.bbox == a.bbox@,
        views(list).len() == list.len(),
        0 <= i < list.len() ==> views(list)[i] == list[i]@,
        entry_views(entries).len() == entries.len(),
        0 <= i < entries.len() ==> entry_views(entries)[i] == (entries[i].0, entries[i].1@),
{
}

} // verus!
