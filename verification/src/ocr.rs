//! Text that is read from a frame.

use vstd::prelude::*;
use crate::text::{join, joined, texts};
use crate::vision::{crop, is_part, Image};

verus! {

/// A line of text that was read: the text, how sure it is, as the bits of a
/// float, and where it lies, in pixels.
pub struct OcrLine {
    pub text: String,
    pub score: u32,
    pub x: i32,
    pub y: i32,
    pub w: u32,
    pub h: u32,
}

/// The texts of lines.
pub open spec fn line_texts(lines: Seq<OcrLine>) -> Seq<Seq<char>> {
    lines.map_values(|l: OcrLine| l.text@)
}

/// The texts of lines.
pub fn texts_of(lines: &Vec<OcrLine>) -> (r: Vec<String>)
    ensures
        texts(r@) == line_texts(lines@),
{
    let mut r: Vec<String> = Vec::new();
    let mut i: usize = 0;
    while i < lines.len()
        invariant
            i <= lines@.len(),
            r@.len() == i,
            forall|k: int| 0 <= k < i ==> (#[trigger] r@[k])@ == lines@[k].text@,
        decreases lines@.len() - i,
    {
        r.push(lines[i].text.clone());
        i += 1;
    }
    assert(texts(r@) =~= line_texts(lines@));
    r
}

/// The text of lines, each on a line of its own.
pub fn ocr_text(lines: &Vec<OcrLine>) -> (s: String)
    ensures
        s@ == join(line_texts(lines@), "\n"@),
{
    let list: Vec<String> = texts_of(lines);
    joined(&list, "\n")
}

/// The part of a frame that text is read from, as far as the frame reaches.
pub fn recognize_roi(frame: &Image, roi: (u32, u32, u32, u32)) -> (part: Image)
    requires
        frame.wf(),
    ensures
        part.wf(),
        is_part(*frame, roi.0 as int, roi.1 as int, roi.2 as int, roi.3 as int, part),
{
    crop(frame, roi.0, roi.1, roi.2, roi.3)
}

/// The texts of lines are theirs, one for one.
pub proof fn law_texts_of_lines(lines: Seq<OcrLine>, i: int)
    ensures
        line_texts(lines).len() == lines.len(),
        0 <= i < lines.len() ==> line_texts(lines)[i] == lines[i].text@,
{
}

} // verus!
