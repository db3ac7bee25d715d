//! What is read of a document: its facts, its pages and what is on them.
use crate::float::Single;
use vstd::prelude::*;

verus! {

/// A point on a page, in PDF points from the top left.
#[derive(Clone, Copy, Debug, PartialEq, Eq, Structural)]
pub struct Point {
    pub x: Single,
    pub y: Single,
}

/// A rectangle, by its corners.
#[derive(Clone, Copy, Debug, PartialEq, Eq, Structural)]
pub struct Rect {
    pub x0: Single,
    pub y0: Single,
    pub x1: Single,
    pub y1: Single,
}

/// A place where a search found its text: upper left, upper right, lower left and
/// lower right.
#[derive(Clone, Copy, Debug, PartialEq, Eq, Structural)]
pub struct Quad {
    pub ul: Point,
    pub ur: Point,
    pub ll: Point,
    pub lr: Point,
}

/// The facts about a document. `pages` holds the bounds of each page, or `None` for
/// a page that could not be read.
#[derive(Debug, PartialEq)]
pub struct DocumentInfo {
    pub page_count: i32,
    pub title: String,
    pub author: String,
    pub subject: String,
    pub keywords: String,
    pub creator: String,
    pub producer: String,
    pub pages: Vec<Option<Rect>>,
}

impl DocumentInfo {
    /// Whether there is an entry for each page.
    pub open spec fn wf(self) -> bool {
        self.pages@.len() == if self.page_count > 0 {
            self.page_count as nat
        } else {
            0
        }
    }

    /// Whether there is an entry for each page.
    pub fn is_complete(&self) -> (r: bool)
        ensures
            r == self.wf(),
    {
        if self.page_count > 0 {
            self.pages.len() as u64 == self.page_count as u64
        } else {
            self.pages.len() == 0
        }
    }
}

/// A rendered page: `channels` bytes for each pixel, the first three of them red,
/// green and blue, and `stride` bytes from one row to the next.
#[derive(Debug, PartialEq)]
pub struct Pixmap {
    pub width: u32,
    pub height: u32,
    pub channels: u32,
    pub stride: u32,
    pub samples: Vec<u8>,
}

/// What a block of a page holds. `Other` has the name of the kind.
#[derive(Debug, PartialEq)]
pub enum BlockKind {
    Text,
    Image,
    Other(String),
}

/// A character of a line, with the point it stands on; `None` for a glyph without a
/// character.
#[derive(Clone, Copy, Debug, PartialEq, Eq)]
pub struct TextChar {
    pub ch: Option<char>,
    pub origin: Point,
}

/// A block of a page.
#[derive(Debug, PartialEq)]
pub struct Block {
    pub kind: BlockKind,
    pub bounds: Rect,
    pub lines: Vec<Vec<TextChar>>,
}

/// An entry of a table of contents.
#[derive(Debug, PartialEq)]
pub struct OutlineItem {
    pub title: String,
    pub uri: Option<String>,
    pub page: Option<u32>,
    pub down: Vec<OutlineItem>,
}

/// A hyperlink of a page.
#[derive(Debug, PartialEq)]
pub struct Link {
    pub uri: String,
    pub bounds: Rect,
}

/// Where the bytes of the pixel in column `col` and row `row` start.
pub open spec fn pixel_offset(pix: Pixmap, col: int, row: int) -> int {
    row * pix.stride + col * pix.channels
}

impl Pixmap {
    /// Whether the samples hold every pixel.
    pub open spec fn wf(self) -> bool {
        self.width > 0 && self.height > 0 ==> pixel_offset(
            self,
            self.width - 1,
            self.height - 1,
        ) + self.channels <= self.samples@.len()
    }

    /// Whether the samples hold every pixel.
    pub fn is_complete(&self) -> (r: bool)
        ensures
            r == self.wf(),
    {
        if self.width == 0 || self.height == 0 {
            return true;
        }
        let row: u64 = self.height as u64 - 1;
        let col: u64 = self.width as u64 - 1;
        assert(0 <= row * self.stride <= 0xffff_ffff * 0xffff_ffff) by (nonlinear_arith)
            requires
                0 <= row <= 0xffff_ffff,
                0 <= self.stride <= 0xffff_ffff,
        ;
        assert(0 <= col * self.channels <= 0xffff_ffff * 0xffff_ffff) by (nonlinear_arith)
            requires
                0 <= col <= 0xffff_ffff,
                0 <= self.channels <= 0xffff_ffff,
        ;
        let end: u128 = (row * self.stride as u64) as u128 + (col * self.channels as u64) as u128
            + self.channels as u128;
        end <= self.samples.len() as u128
    }

    /// Where the bytes of the pixel in column `col` and row `row` start.
    pub fn offset(&self, col: u32, row: u32) -> (r: usize)
        requires
            self.wf(),
            col < self.width,
            row < self.height,
        ensures
            r == pixel_offset(*self, col as int, row as int),
            r + self.channels <= self.samples@.len(),
            r + self.channels <= usize::MAX,
    {
        let len: usize = self.samples.len();
        proof {
            lemma_pixel_within(*self, col as int, row as int);
            assert(0 <= col * self.channels) by (nonlinear_arith)
                requires
                    0 <= col,
                    0 <= self.channels,
            ;
            assert(pixel_offset(*self, col as int, row as int) <= len);
        }
        row as usize * self.stride as usize + col as usize * self.channels as usize
    }
}

/// Every pixel of a complete pixmap is within its samples.
pub proof fn lemma_pixel_within(pix: Pixmap, col: int, row: int)
    requires
        pix.wf(),
        0 <= col < pix.width,
        0 <= row < pix.height,
    ensures
        0 <= row * pix.stride <= pixel_offset(pix, col, row),
        pixel_offset(pix, col, row) + pix.channels <= pix.samples@.len(),
{
    assert(row * pix.stride <= (pix.height - 1) * pix.stride) by (nonlinear_arith)
        requires
            0 <= row <= pix.height - 1,
            0 <= pix.stride,
    ;
    assert(0 <= col * pix.channels <= (pix.width - 1) * pix.channels) by (nonlinear_arith)
        requires
            0 <= col <= pix.width - 1,
            0 <= pix.channels,
    ;
    assert(0 <= row * pix.stride) by (nonlinear_arith)
        requires
            0 <= row,
            0 <= pix.stride,
    ;
}

} // verus!
