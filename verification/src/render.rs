//! Rendering a page, or a region of one, as a picture.
use crate::args::{page_num_spec, rect_arg, rect_arg_spec};
use crate::content::{image_content, image_content_spec, inline_bytes, law_image_is_read_back};
use crate::document::{pixel_offset, Pixmap, Rect};
use crate::float::{lemma_div_monotone, lemma_narrow_monotone, Double, Single};
use crate::json::{agree_but, find, int_tree, Json, Tree};
use crate::picture::{
    can_resize, encodable, encode_image, encode_image_spec, file_size, names_jpeg, png_picture,
    quality_spec, resampled, resizable, resize_picture, Picture,
};
use crate::resize::{resize_dims, resize_dims_spec};
use crate::text::{decimal, decimal_spec, joined};
use vstd::prelude::*;

verus! {

/// A region of a pixmap: the column and the row that it starts at, and its size.
#[derive(Clone, Copy, Debug, PartialEq, Eq, Structural)]
pub struct Region {
    pub col: u32,
    pub row: u32,
    pub width: u32,
    pub height: u32,
}

impl Region {
    /// Whether the region lies on a pixmap.
    pub open spec fn within(self, pix: Pixmap) -> bool {
        self.col + self.width <= pix.width && self.row + self.height <= pix.height
    }
}

/// The resolution of 150 dots per inch.
pub const DEFAULT_DPI: u64 = 150;

/// The highest resolution, in dots per inch.
pub const HIGHEST_DPI: u64 = 1200;

/// The number of pixels for a PDF point that the arguments ask for: the resolution,
/// capped, over 72 points to the inch.
pub open spec fn render_scale_spec(args: Tree) -> Single {
    let dpi = match args.double_at("dpi"@) {
        Some(d) => d,
        None => Double::from_int(DEFAULT_DPI as int),
    };
    dpi.min_spec(Double::from_int(HIGHEST_DPI as int)).narrow_spec().div_spec(72)
}

/// The number of pixels for a PDF point that the arguments ask for.
pub fn render_scale(args: &Json) -> (r: Single)
    ensures
        r == render_scale_spec(args@),
{
    let dpi: Double = match args.double_at("dpi") {
        Some(d) => d,
        None => Double::from_u64(DEFAULT_DPI),
    };
    dpi.min(Double::from_u64(HIGHEST_DPI)).narrow().div(72)
}

/// The pixel that a coordinate in PDF points falls on, at most `limit`.
pub open spec fn to_pixel_spec(c: Single, scale: Single, limit: u32) -> u32 {
    let p = c.mul_spec(scale).whole();
    if p < limit {
        p as u32
    } else {
        limit
    }
}

/// The pixel that a coordinate in PDF points falls on, at most `limit`.
fn to_pixel(c: Single, scale: Single, limit: u32) -> (r: u32)
    ensures
        r == to_pixel_spec(c, scale, limit),
{
    let p: u32 = c.mul(scale).to_u32();
    if p < limit {
        p
    } else {
        limit
    }
}

/// The region of a pixmap that a rectangle in PDF points covers; `None` where it
/// has no pixel.
pub open spec fn covered(b: Rect, scale: Single, width: u32, height: u32) -> Option<Region> {
    let col = to_pixel_spec(b.x0, scale, width);
    let row = to_pixel_spec(b.y0, scale, height);
    let col_end = to_pixel_spec(b.x1, scale, width);
    let row_end = to_pixel_spec(b.y1, scale, height);
    if col < col_end && row < row_end {
        Some(Region { col, row, width: (col_end - col) as u32, height: (row_end - row) as u32 })
    } else {
        None
    }
}

/// The region that the arguments ask for: the rectangle they give, or all of the
/// page where they have no `x0`.
pub open spec fn region_spec(args: Tree, scale: Single, width: u32, height: u32) -> Result<
    Region,
    Seq<char>,
> {
    if args.get("x0"@) is Some {
        match rect_arg_spec(args) {
            Ok(b) => match covered(b, scale, width, height) {
                Some(g) => Ok(g),
                None => Err("Region has zero area"@),
            },
            Err(e) => Err(e),
        }
    } else {
        Ok(Region { col: 0, row: 0, width, height })
    }
}

/// The region that the arguments ask for.
pub fn region(args: &Json, scale: Single, width: u32, height: u32) -> (r: Result<Region, String>)
    ensures
        match r {
            Ok(g) => region_spec(args@, scale, width, height) == Ok::<Region, Seq<char>>(g),
            Err(e) => region_spec(args@, scale, width, height) == Err::<Region, Seq<char>>(e@),
        },
        r matches Ok(g) ==> g.col + g.width <= width && g.row + g.height <= height,
{
    if args.has("x0") {
        match rect_arg(args) {
            Ok(b) => {
                let col: u32 = to_pixel(b.x0, scale, width);
                let row: u32 = to_pixel(b.y0, scale, height);
                let col_end: u32 = to_pixel(b.x1, scale, width);
                let row_end: u32 = to_pixel(b.y1, scale, height);
                if col < col_end && row < row_end {
                    Ok(Region { col, row, width: col_end - col, height: row_end - row })
                } else {
                    Err("Region has zero area".to_owned())
                }
            },
            Err(e) => Err(e),
        }
    } else {
        Ok(Region { col: 0, row: 0, width, height })
    }
}

/// The red, green and blue bytes of a run of pixels of one row.
pub open spec fn row_bytes(pix: Pixmap, col: int, row: int, width: nat) -> Seq<u8> {
    Seq::new(3 * width, |i: int| pix.samples@[pixel_offset(pix, col + i / 3, row) + i % 3])
}

/// The red, green and blue bytes of the first `height` rows of a region.
pub open spec fn region_bytes(pix: Pixmap, g: Region, height: nat) -> Seq<u8>
    decreases height,
{
    if height == 0 {
        seq![]
    } else {
        let above = (height - 1) as nat;
        region_bytes(pix, g, above) + row_bytes(
            pix,
            g.col as int,
            g.row + above,
            g.width as nat,
        )
    }
}

/// Append the red, green and blue bytes of a run of pixels of one row.
fn push_row(rgb: &mut Vec<u8>, pix: &Pixmap, col: u32, row: u32, width: u32)
    requires
        pix.wf(),
        pix.channels >= 3,
        col + width <= pix.width,
        row < pix.height,
    ensures
        final(rgb)@ == old(rgb)@ + row_bytes(*pix, col as int, row as int, width as nat),
{
    let ghost before = rgb@;
    let mut i: u32 = 0;
    assert(rgb@ =~= before + row_bytes(*pix, col as int, row as int, 0));
    while i < width
        invariant
            i <= width,
            pix.wf(),
            pix.channels >= 3,
            col + width <= pix.width,
            row < pix.height,
            rgb@ == before + row_bytes(*pix, col as int, row as int, i as nat),
        decreases width - i,
    {
        let off: usize = pix.offset(col + i, row);
        rgb.push(pix.samples[off]);
        rgb.push(pix.samples[off + 1]);
        rgb.push(pix.samples[off + 2]);
        let ghost done = row_bytes(*pix, col as int, row as int, i as nat);
        let ghost more = row_bytes(*pix, col as int, row as int, (i + 1) as nat);
        assert(more =~= done.push(pix.samples@[off as int]).push(pix.samples@[off + 1]).push(
            pix.samples@[off + 2],
        ));
        assert(rgb@ =~= before + more);
        i += 1;
    }
}

/// The picture of a region of a pixmap.
pub fn crop(pix: &Pixmap, g: Region) -> (r: Picture)
    requires
        pix.wf(),
        pix.channels >= 3,
        g.within(*pix),
    ensures
        r.wf(),
        r.width == g.width,
        r.height == g.height,
        r.rgb@ == region_bytes(*pix, g, g.height as nat),
{
    let mut rgb: Vec<u8> = Vec::new();
    let mut i: u32 = 0;
    while i < g.height
        invariant
            i <= g.height,
            pix.wf(),
            pix.channels >= 3,
            g.within(*pix),
            rgb@ == region_bytes(*pix, g, i as nat),
            rgb@.len() == 3 * (g.width * i),
        decreases g.height - i,
    {
        push_row(&mut rgb, pix, g.col, g.row + i, g.width);
        assert(g.width * (i + 1) == g.width * i + g.width) by (nonlinear_arith);
        i += 1;
    }
    Picture { width: g.width, height: g.height, rgb }
}

/// The message for a pixmap without three channels.
pub open spec fn format_error_spec(channels: u32) -> Seq<char> {
    "Unexpected pixel format: "@ + decimal_spec(channels as nat) + " channels (expected >= 3)"@
}

/// The message for a pixmap without three channels.
pub fn format_error(channels: u32) -> (r: String)
    ensures
        r@ == format_error_spec(channels),
{
    let head: String = joined("Unexpected pixel format: ", decimal(channels as u64).as_str());
    joined(head.as_str(), " channels (expected >= 3)")
}

/// The size in pixels that the arguments give at `key`, at least one. A number that no
/// picture can have is refused.
pub open spec fn size_arg_spec(args: Tree, key: Seq<char>) -> Result<Option<u32>, Seq<char>> {
    match args.u64_at(key) {
        Some(v) => if v > u32::MAX {
            Err("Size out of range: "@ + decimal_spec(v as nat))
        } else {
            Ok(Some(at_least_one(v as u32)))
        },
        None => Ok(None),
    }
}

/// The size in pixels that the arguments give at `key`.
fn size_arg(args: &Json, key: &str) -> (r: Result<Option<u32>, String>)
    ensures
        match r {
            Ok(n) => size_arg_spec(args@, key@) == Ok::<Option<u32>, Seq<char>>(n),
            Err(e) => size_arg_spec(args@, key@) == Err::<Option<u32>, Seq<char>>(e@),
        },
{
    match args.u64_at(key) {
        Some(v) => if v > u32::MAX as u64 {
            Err(joined("Size out of range: ", decimal(v).as_str()))
        } else {
            Ok(Some(side(v as u32)))
        },
        None => Ok(None),
    }
}

/// The width and the height that the arguments ask for. A width overrides the height.
pub open spec fn asked_spec(args: Tree) -> Result<(Option<u32>, Option<u32>), Seq<char>> {
    match size_arg_spec(args, "width"@) {
        Ok(Some(w)) => Ok((Some(w), None)),
        Ok(None) => match size_arg_spec(args, "height"@) {
            Ok(h) => Ok((None, h)),
            Err(e) => Err(e),
        },
        Err(e) => Err(e),
    }
}

/// A side, or one where it is zero.
pub open spec fn at_least_one(n: u32) -> u32 {
    if n == 0 {
        1
    } else {
        n
    }
}

/// A side, or one where it is zero.
fn side(n: u32) -> (r: u32)
    ensures
        r == at_least_one(n),
{
    if n == 0 {
        1
    } else {
        n
    }
}

/// The size that the arguments ask to resize a picture to; `None` where no resize is
/// needed. A side that rounds to nothing keeps one pixel.
pub open spec fn target_spec(args: Tree, width: u32, height: u32) -> Result<
    Option<(u32, u32)>,
    Seq<char>,
> {
    match asked_spec(args) {
        Ok((w, h)) => match resize_dims_spec(width, height, w, h) {
            Some((tw, th)) => Ok(Some((at_least_one(tw), at_least_one(th)))),
            None => Ok(None),
        },
        Err(e) => Err(e),
    }
}

/// The size that the arguments ask to resize a picture to.
fn target(args: &Json, width: u32, height: u32) -> (r: Result<Option<(u32, u32)>, String>)
    ensures
        match r {
            Ok(t) => target_spec(args@, width, height) == Ok::<Option<(u32, u32)>, Seq<char>>(t),
            Err(e) => target_spec(args@, width, height) == Err::<Option<(u32, u32)>, Seq<char>>(
                e@,
            ),
        },
{
    let (w, h): (Option<u32>, Option<u32>) = match size_arg(args, "width") {
        Ok(Some(w)) => (Some(w), None),
        Ok(None) => match size_arg(args, "height") {
            Ok(h) => (None, h),
            Err(e) => return Err(e),
        },
        Err(e) => return Err(e),
    };
    match resize_dims(width, height, w, h) {
        Some((tw, th)) => Ok(Some((side(tw), side(th)))),
        None => Ok(None),
    }
}

/// A rendered picture: an answer, or a file to write and what to say of it.
#[derive(Debug, PartialEq)]
pub enum Rendered {
    Inline(Json),
    File { path: String, bytes: Vec<u8>, summary: Json },
}

/// What a rendered picture holds.
pub enum RenderedView {
    Inline(Tree),
    File { path: Seq<char>, bytes: Seq<u8>, summary: Tree },
}

impl View for Rendered {
    type V = RenderedView;

    open spec fn view(&self) -> RenderedView {
        match self {
            Rendered::Inline(v) => RenderedView::Inline(v@),
            Rendered::File { path, bytes, summary } => RenderedView::File {
                path: path@,
                bytes: bytes@,
                summary: summary@,
            },
        }
    }
}

/// The format that the arguments name, `png` where they name none.
pub open spec fn format_spec(args: Tree) -> Seq<char> {
    match args.text_at("format"@) {
        Some(f) => f,
        None => "png"@,
    }
}

/// What is said of a picture that was written to a file.
pub open spec fn summary_spec(
    path: Seq<char>,
    format: Seq<char>,
    width: u32,
    height: u32,
    bytes: nat,
) -> Tree {
    Tree::Object(
        seq![
            ("path"@, Tree::Text(path)),
            ("format"@, Tree::Text(format)),
            ("width"@, int_tree(width as int)),
            ("height"@, int_tree(height as int)),
            ("bytes"@, int_tree(bytes as int)),
        ],
    )
}

/// What is said of a picture that was written to a file.
fn summary(path: &str, format: &str, width: u32, height: u32, bytes: usize) -> (r: Json)
    ensures
        r@ == summary_spec(path@, format@, width, height, bytes as nat),
{
    let r: Json = Json::object().with("path", Json::text(path)).with(
        "format",
        Json::text(format),
    ).with("width", Json::unsigned(width as u64)).with(
        "height",
        Json::unsigned(height as u64),
    ).with("bytes", Json::unsigned(bytes as u64));
    assert(r@->Object_0 =~= summary_spec(path@, format@, width, height, bytes as nat)->Object_0);
    r
}

/// A picture in the format that the arguments name: inline, or for the file that
/// they name.
pub open spec fn finish_render_spec(width: u32, height: u32, rgb: Seq<u8>, args: Tree) -> Result<
    RenderedView,
    Seq<char>,
> {
    let format = format_spec(args);
    match encode_image_spec(width, height, rgb, format, args) {
        Ok((bytes, mime)) => match args.text_at("output_path"@) {
            Some(path) => Ok(
                RenderedView::File {
                    path,
                    bytes,
                    summary: summary_spec(path, format, width, height, bytes.len()),
                },
            ),
            None => Ok(RenderedView::Inline(image_content_spec(bytes, mime))),
        },
        Err(e) => Err(e),
    }
}

/// The image file in a rendered picture.
pub open spec fn picture_file(d: RenderedView) -> Seq<u8> {
    match d {
        RenderedView::Inline(v) => inline_bytes(v),
        RenderedView::File { bytes, .. } => bytes,
    }
}

/// Whether `r` is what becomes of a picture that is written in the format that the
/// arguments name. There is a file just where the format takes the size. It has the size
/// of the picture, and a PNG file holds the picture.
pub open spec fn written(
    width: u32,
    height: u32,
    rgb: Seq<u8>,
    args: Tree,
    r: Result<RenderedView, Seq<char>>,
) -> bool {
    &&& r == finish_render_spec(width, height, rgb, args)
    &&& r is Ok <==> encodable(width, height, format_spec(args))
    &&& r matches Ok(d) ==> file_size(format_spec(args), picture_file(d)) == Some((width, height))
    &&& !names_jpeg(format_spec(args)) ==> (r matches Ok(d) ==> png_picture(picture_file(d))
        == Some((width, height, rgb)))
}

/// The view of a result.
pub open spec fn rendered_view(r: Result<Rendered, String>) -> Result<RenderedView, Seq<char>> {
    match r {
        Ok(d) => Ok(d@),
        Err(e) => Err(e@),
    }
}

/// A picture in the format that the arguments name: inline, or for the file that
/// they name.
pub fn finish_render(p: &Picture, args: &Json) -> (r: Result<Rendered, String>)
    requires
        p.wf(),
    ensures
        written(p.width, p.height, p.rgb@, args@, rendered_view(r)),
{
    let format: String = match args.text_at("format") {
        Some(f) => f,
        None => "png".to_owned(),
    };
    match encode_image(p, format.as_str(), args) {
        Ok((bytes, mime)) => match args.text_at("output_path") {
            Some(path) => {
                let said: Json = summary(
                    path.as_str(),
                    format.as_str(),
                    p.width,
                    p.height,
                    bytes.len(),
                );
                Ok(Rendered::File { path, bytes, summary: said })
            },
            None => {
                proof {
                    law_image_is_read_back(bytes@, mime@);
                }
                Ok(Rendered::Inline(image_content(bytes.as_slice(), mime)))
            },
        },
        Err(e) => Err(e),
    }
}

/// Whether a pixmap holds the pixels that the arguments ask for, and there is room for
/// the picture.
pub open spec fn renderable(args: Tree, scale: Single, pix: Pixmap) -> bool {
    pix.channels >= 3 ==> match region_spec(args, scale, pix.width, pix.height) {
        Ok(g) => pix.wf() && match target_spec(args, g.width, g.height) {
            Ok(Some((tw, th))) => resizable(g.width, g.height, tw, th),
            _ => true,
        },
        Err(_) => true,
    }
}

/// Whether a pixmap holds the pixels that the arguments ask for, and there is room for
/// the picture.
pub fn can_render(args: &Json, scale: Single, pix: &Pixmap) -> (r: bool)
    ensures
        r == renderable(args@, scale, *pix),
{
    if pix.channels < 3 {
        return true;
    }
    match region(args, scale, pix.width, pix.height) {
        Ok(g) => pix.is_complete() && match target(args, g.width, g.height) {
            Ok(Some((tw, th))) => can_resize(g.width, g.height, tw, th),
            _ => true,
        },
        Err(_) => true,
    }
}

/// Whether `r` is what a picture becomes once it is resized as the arguments ask and
/// written in the format that they name. A picture that needs no resize is written as it
/// is; any other gets the size asked for, and pixels that are an outcome of resampling
/// its own.
pub open spec fn renders(
    width: u32,
    height: u32,
    rgb: Seq<u8>,
    args: Tree,
    r: Result<RenderedView, Seq<char>>,
) -> bool {
    match target_spec(args, width, height) {
        Ok(Some((tw, th))) => exists|new: Seq<u8>|
            {
                &&& new.len() == 3 * (tw * th)
                &&& #[trigger] resampled(width, height, rgb, tw, th, new)
                &&& written(tw, th, new, args, r)
            },
        Ok(None) => written(width, height, rgb, args, r),
        Err(e) => r == Err::<RenderedView, Seq<char>>(e),
    }
}

/// Whether `r` is what the tool gives for a pixmap of the page.
pub open spec fn render_result(
    args: Tree,
    scale: Single,
    pix: Pixmap,
    r: Result<RenderedView, Seq<char>>,
) -> bool {
    if pix.channels < 3 {
        r == Err::<RenderedView, Seq<char>>(format_error_spec(pix.channels))
    } else {
        match region_spec(args, scale, pix.width, pix.height) {
            Ok(g) => renders(
                g.width,
                g.height,
                region_bytes(pix, g, g.height as nat),
                args,
                r,
            ),
            Err(e) => r == Err::<RenderedView, Seq<char>>(e),
        }
    }
}

/// Render a page from its pixmap at `scale` pixels to the point: crop it to the region
/// that the arguments give, resize it, and write it in the format that they name.
pub fn tool_render(args: &Json, scale: Single, pix: &Pixmap) -> (r: Result<Rendered, String>)
    requires
        renderable(args@, scale, *pix),
    ensures
        render_result(args@, scale, *pix, rendered_view(r)),
{
    if pix.channels < 3 {
        return Err(format_error(pix.channels));
    }
    let g: Region = match region(args, scale, pix.width, pix.height) {
        Ok(g) => g,
        Err(e) => return Err(e),
    };
    let whole: Picture = crop(pix, g);
    match target(args, whole.width, whole.height) {
        Ok(Some((tw, th))) => {
            let resized: Picture = resize_picture(&whole, tw, th);
            finish_render(&resized, args)
        },
        Ok(None) => finish_render(&whole, args),
        Err(e) => Err(e),
    }
}

/// The scale for the highest resolution.
pub open spec fn highest_scale() -> Single {
    Double::from_int(HIGHEST_DPI as int).narrow_spec().div_spec(72)
}

/// Whatever resolution is asked for, the scale is a number that is at most that of the
/// highest resolution.
pub proof fn law_resolution_is_capped(args: Tree)
    ensures
        render_scale_spec(args).le_spec(highest_scale()),
{
    let top = Double::from_int(HIGHEST_DPI as int);
    let asked = match args.double_at("dpi"@) {
        Some(d) => d,
        None => Double::from_int(DEFAULT_DPI as int),
    };
    let dpi = asked.min_spec(top);
    lemma_narrow_monotone(dpi, top);
    lemma_div_monotone(dpi.narrow_spec(), top.narrow_spec(), 72);
}

/// A resolution beyond the highest one gives the scale of the highest one, and none gives
/// that of the default.
pub proof fn law_scale_of_greater_or_no_resolution(a: Tree, b: Tree)
    requires
        match (a.double_at("dpi"@), b.double_at("dpi"@)) {
            (Some(x), Some(y)) => y == Double::from_int(HIGHEST_DPI as int) && x.place()
                > y.place(),
            (None, Some(y)) => y == Double::from_int(DEFAULT_DPI as int),
            (_, None) => false,
        },
    ensures
        render_scale_spec(a) == render_scale_spec(b),
{
}

/// The region that is drawn lies on the page, whatever rectangle is asked for, and a
/// rectangle is drawn only where it covers a pixel.
pub proof fn law_region_lies_on_page(args: Tree, scale: Single, width: u32, height: u32)
    ensures
        region_spec(args, scale, width, height) matches Ok(g) ==> {
            &&& g.col + g.width <= width
            &&& g.row + g.height <= height
            &&& args.get("x0"@) is Some ==> g.width >= 1 && g.height >= 1
            &&& args.get("x0"@) is None ==> g == (Region { col: 0, row: 0, width, height })
        },
{
}

/// The picture of a region has its size, three bytes to the pixel.
proof fn lemma_region_len(pix: Pixmap, g: Region, height: nat)
    ensures
        region_bytes(pix, g, height).len() == 3 * (g.width * height),
    decreases height,
{
    if height > 0 {
        lemma_region_len(pix, g, (height - 1) as nat);
        assert(g.width * height == g.width * (height - 1) + g.width) by (nonlinear_arith)
            requires
                height > 0,
        ;
    } else {
        assert(g.width * height == 0) by (nonlinear_arith)
            requires
                height == 0,
        ;
    }
}

/// Where a channel of the pixel in column `col` and row `row` stands in a picture of
/// `width` pixels to the row.
pub open spec fn byte_at(width: int, col: int, row: int, channel: int) -> int {
    3 * (width * row + col) + channel
}

/// Each pixel of the picture of a region is the pixel at the same place in the region.
pub proof fn law_crop_keeps_pixels(
    pix: Pixmap,
    g: Region,
    height: nat,
    col: int,
    row: int,
    channel: int,
)
    requires
        0 <= col < g.width,
        0 <= row < height,
        0 <= channel < 3,
    ensures
        region_bytes(pix, g, height).len() == 3 * (g.width * height),
        0 <= byte_at(g.width as int, col, row, channel) < region_bytes(pix, g, height).len(),
        region_bytes(pix, g, height)[byte_at(g.width as int, col, row, channel)] == pix.samples@[
            pixel_offset(pix, g.col + col, g.row + row) + channel
        ],
    decreases height,
{
    let above = (height - 1) as nat;
    let at = 3 * (g.width * row + col) + channel;
    lemma_region_len(pix, g, height);
    lemma_region_len(pix, g, above);
    assert(g.width * height == g.width * above + g.width) by (nonlinear_arith)
        requires
            height == above + 1,
    ;
    assert(0 <= g.width * row) by (nonlinear_arith)
        requires
            0 <= row,
            0 <= g.width,
    ;
    if row == above {
        let i = 3 * col + channel;
        assert(i / 3 == col && i % 3 == channel);
        assert(at == region_bytes(pix, g, above).len() + i);
    } else {
        law_crop_keeps_pixels(pix, g, above, col, row, channel);
    }
}

/// A picture goes to the file that the arguments name, and only there; what is said of
/// it has the path, the format, the size of the picture and the size of the file.
pub proof fn law_summary_describes_the_file(width: u32, height: u32, rgb: Seq<u8>, args: Tree)
    ensures
        match finish_render_spec(width, height, rgb, args) {
            Ok(RenderedView::Inline(_)) => args.text_at("output_path"@) is None,
            Ok(RenderedView::File { path, bytes, summary }) => {
                &&& args.text_at("output_path"@) == Some(path)
                &&& summary.text_at("path"@) == Some(path)
                &&& summary.text_at("format"@) == Some(format_spec(args))
                &&& summary.get("width"@) == Some(int_tree(width as int))
                &&& summary.get("height"@) == Some(int_tree(height as int))
                &&& summary.get("bytes"@) == Some(int_tree(bytes.len() as int))
            },
            Err(_) => true,
        },
{
    reveal_strlit("path");
    reveal_strlit("format");
    reveal_strlit("width");
    reveal_strlit("height");
    reveal_strlit("bytes");
    assert("path"@.len() == 4 && "format"@.len() == 6 && "width"@.len() == 5 && "height"@.len() == 6
        && "bytes"@.len() == 5);
    assert("format"@[0] == 'f' && "height"@[0] == 'h');
    assert("width"@[0] == 'w' && "bytes"@[0] == 'b');
    reveal_with_fuel(find, 6);
}

/// A file is asked for only where the arguments name it.
pub proof fn law_only_named_files_are_drawn(
    args: Tree,
    scale: Single,
    pix: Pixmap,
    r: Result<RenderedView, Seq<char>>,
)
    requires
        render_result(args, scale, pix, r),
    ensures
        match r {
            Ok(RenderedView::Inline(_)) => args.text_at("output_path"@) is None,
            Ok(RenderedView::File { path, .. }) => args.text_at("output_path"@) == Some(path),
            Err(_) => true,
        },
{
}

/// The picture that comes of a region, as it is written: its size, and its bytes.
proof fn lemma_written(
    args: Tree,
    scale: Single,
    pix: Pixmap,
    d: RenderedView,
) -> (p: (u32, u32, Seq<u8>))
    requires
        render_result(args, scale, pix, Ok(d)),
    ensures
        written(p.0, p.1, p.2, args, Ok(d)),
        asked_spec(args) matches Ok((Some(w), _)) ==> p.0 == w,
        asked_spec(args) matches Ok((None, Some(h))) ==> p.1 == h,
{
    let r = Ok::<RenderedView, Seq<char>>(d);
    let g = region_spec(args, scale, pix.width, pix.height)->Ok_0;
    let rgb = region_bytes(pix, g, g.height as nat);
    match target_spec(args, g.width, g.height)->Ok_0 {
        Some((tw, th)) => {
            let new = choose|new: Seq<u8>|
                {
                    &&& new.len() == 3 * (tw * th)
                    &&& #[trigger] resampled(g.width, g.height, rgb, tw, th, new)
                    &&& written(tw, th, new, args, r)
                };
            (tw, th, new)
        },
        None => (g.width, g.height, rgb),
    }
}

/// What is said of a file is so: it is at the path that the arguments name, in the format
/// that they name, of as many bytes as are said, and of the width and height that are
/// said.
pub proof fn law_summary_is_true_of_the_file(
    args: Tree,
    scale: Single,
    pix: Pixmap,
    path: Seq<char>,
    bytes: Seq<u8>,
    summary: Tree,
)
    requires
        render_result(args, scale, pix, Ok(RenderedView::File { path, bytes, summary })),
    ensures
        args.text_at("output_path"@) == Some(path),
        summary.text_at("path"@) == Some(path),
        summary.text_at("format"@) == Some(format_spec(args)),
        summary.get("bytes"@) == Some(int_tree(bytes.len() as int)),
        file_size(format_spec(args), bytes) matches Some((w, h)) && summary.get("width"@) == Some(
            int_tree(w as int),
        ) && summary.get("height"@) == Some(int_tree(h as int)),
{
    let d = RenderedView::File { path, bytes, summary };
    let p = lemma_written(args, scale, pix, d);
    law_summary_describes_the_file(p.0, p.1, p.2, args);
}

/// A picture has the size asked for: the width, or the height where only a height is
/// asked for.
pub proof fn law_picture_has_the_size_asked_for(
    args: Tree,
    scale: Single,
    pix: Pixmap,
    d: RenderedView,
)
    requires
        render_result(args, scale, pix, Ok(d)),
    ensures
        file_size(format_spec(args), picture_file(d)) matches Some((w, h)) && {
            &&& asked_spec(args) matches Ok((Some(asked), _)) ==> w == asked
            &&& asked_spec(args) matches Ok((None, Some(asked))) ==> h == asked
        },
{
    let p = lemma_written(args, scale, pix, d);
}

/// What a picture is drawn from does not depend on the resolution that is named, given
/// the scale, nor on the file that is named.
proof fn lemma_same_drawing(a: Tree, b: Tree, key: Seq<char>, scale: Single, w: u32, h: u32)
    requires
        agree_but(a, b, key),
        key == "dpi"@ || key == "output_path"@,
    ensures
        region_spec(a, scale, w, h) == region_spec(b, scale, w, h),
        size_arg_spec(a, "width"@) == size_arg_spec(b, "width"@),
        size_arg_spec(a, "height"@) == size_arg_spec(b, "height"@),
        format_spec(a) == format_spec(b),
        quality_spec(a) == quality_spec(b),
        key == "dpi"@ ==> a.text_at("output_path"@) == b.text_at("output_path"@),
        key == "dpi"@ ==> page_num_spec(a) == page_num_spec(b),
{
    reveal_strlit("dpi");
    reveal_strlit("output_path");
    reveal_strlit("x0");
    reveal_strlit("y0");
    reveal_strlit("x1");
    reveal_strlit("y1");
    reveal_strlit("width");
    reveal_strlit("height");
    reveal_strlit("format");
    reveal_strlit("quality");
    reveal_strlit("page");
    assert("dpi"@.len() == 3 && "output_path"@.len() == 11);
    assert("x0"@.len() == 2 && "y0"@.len() == 2 && "x1"@.len() == 2 && "y1"@.len() == 2);
    assert("width"@.len() == 5 && "height"@.len() == 6 && "format"@.len() == 6);
    assert("quality"@.len() == 7 && "page"@.len() == 4);
    assert(a.get("x0"@) == b.get("x0"@));
    assert(a.get("y0"@) == b.get("y0"@));
    assert(a.get("x1"@) == b.get("x1"@));
    assert(a.get("y1"@) == b.get("y1"@));
    assert(a.get("width"@) == b.get("width"@));
    assert(a.get("height"@) == b.get("height"@));
    assert(a.get("format"@) == b.get("format"@));
    assert(a.get("quality"@) == b.get("quality"@));
    assert(a.get("page"@) == b.get("page"@));
}

/// Given the scale, the resolution that is named changes nothing.
proof fn lemma_renders_alike(
    a: Tree,
    b: Tree,
    scale: Single,
    pix: Pixmap,
    r: Result<RenderedView, Seq<char>>,
)
    requires
        agree_but(a, b, "dpi"@),
        render_result(a, scale, pix, r),
    ensures
        render_result(b, scale, pix, r),
{
    lemma_same_drawing(a, b, "dpi"@, scale, pix.width, pix.height);
    if pix.channels >= 3 {
        if let Ok(g) = region_spec(a, scale, pix.width, pix.height) {
            let rgb = region_bytes(pix, g, g.height as nat);
            if let Ok(Some((tw, th))) = target_spec(a, g.width, g.height) {
                let new = choose|new: Seq<u8>|
                    {
                        &&& new.len() == 3 * (tw * th)
                        &&& #[trigger] resampled(g.width, g.height, rgb, tw, th, new)
                        &&& written(tw, th, new, a, r)
                    };
                assert(written(tw, th, new, b, r));
                assert(resampled(g.width, g.height, rgb, tw, th, new));
            }
        }
    }
}

/// Of two sets of arguments that agree but for the resolution, and give the same scale,
/// the tool makes the same of every pixmap.
pub proof fn law_resolution_counts_by_its_scale(
    a: Tree,
    b: Tree,
    scale: Single,
    pix: Pixmap,
    r: Result<RenderedView, Seq<char>>,
)
    requires
        agree_but(a, b, "dpi"@),
    ensures
        renderable(a, scale, pix) == renderable(b, scale, pix),
        render_result(a, scale, pix, r) == render_result(b, scale, pix, r),
{
    lemma_same_drawing(a, b, "dpi"@, scale, pix.width, pix.height);
    if render_result(a, scale, pix, r) {
        lemma_renders_alike(a, b, scale, pix, r);
    }
    if render_result(b, scale, pix, r) {
        lemma_renders_alike(b, a, scale, pix, r);
    }
}

/// Whether the picture of a region can come out in one way only: it needs no resize, or
/// resampling its pixels has one outcome.
pub open spec fn settled(args: Tree, pix: Pixmap, g: Region) -> bool {
    let rgb = region_bytes(pix, g, g.height as nat);
    target_spec(args, g.width, g.height) matches Ok(Some((tw, th))) ==> forall|
        x: Seq<u8>,
        y: Seq<u8>,
    |
        #[trigger] resampled(g.width, g.height, rgb, tw, th, x) && #[trigger] resampled(
            g.width,
            g.height,
            rgb,
            tw,
            th,
            y,
        ) ==> x == y
}

/// A picture is the same file, byte for byte, whether it goes to a file or comes inline,
/// as long as it can come out in one way only. Otherwise it has the same size still.
pub proof fn law_file_and_inline_hold_the_same_bytes(
    a: Tree,
    b: Tree,
    scale: Single,
    pix: Pixmap,
    to_file: RenderedView,
    inline: RenderedView,
)
    requires
        agree_but(a, b, "output_path"@),
        a.text_at("output_path"@) is Some,
        b.text_at("output_path"@) is None,
        render_result(a, scale, pix, Ok(to_file)),
        render_result(b, scale, pix, Ok(inline)),
    ensures
        to_file is File,
        inline is Inline,
        file_size(format_spec(a), picture_file(to_file)) == file_size(
            format_spec(b),
            picture_file(inline),
        ),
        region_spec(a, scale, pix.width, pix.height) matches Ok(g) && (settled(a, pix, g)
            ==> picture_file(to_file) == inline_bytes(inline->Inline_0)),
{
    lemma_same_drawing(a, b, "output_path"@, scale, pix.width, pix.height);
    let g = region_spec(a, scale, pix.width, pix.height)->Ok_0;
    let rgb = region_bytes(pix, g, g.height as nat);
    let bytes = to_file->bytes;
    law_image_is_read_back(bytes, "image/jpeg"@);
    law_image_is_read_back(bytes, "image/png"@);
    if let Some((tw, th)) = target_spec(a, g.width, g.height)->Ok_0 {
        let x = choose|new: Seq<u8>|
            {
                &&& new.len() == 3 * (tw * th)
                &&& #[trigger] resampled(g.width, g.height, rgb, tw, th, new)
                &&& written(tw, th, new, a, Ok(to_file))
            };
        let y = choose|new: Seq<u8>|
            {
                &&& new.len() == 3 * (tw * th)
                &&& #[trigger] resampled(g.width, g.height, rgb, tw, th, new)
                &&& written(tw, th, new, b, Ok(inline))
            };
        assert(written(tw, th, x, a, Ok(to_file)) && written(tw, th, y, b, Ok(inline)));
        if settled(a, pix, g) {
            assert(x == y);
        }
    }
}

/// A picture can be drawn to a file just where it can be drawn inline, and is refused in
/// the same words, as long as it can come out in one way only.
pub proof fn law_file_and_inline_are_refused_alike(
    a: Tree,
    b: Tree,
    scale: Single,
    pix: Pixmap,
    to_file: Result<RenderedView, Seq<char>>,
    inline: Result<RenderedView, Seq<char>>,
)
    requires
        agree_but(a, b, "output_path"@),
        render_result(a, scale, pix, to_file),
        render_result(b, scale, pix, inline),
    ensures
        to_file is Ok <==> inline is Ok,
        (region_spec(a, scale, pix.width, pix.height) matches Ok(g) ==> settled(a, pix, g)) ==> (
        to_file is Err ==> to_file == inline),
{
    lemma_same_drawing(a, b, "output_path"@, scale, pix.width, pix.height);
    if pix.channels >= 3 {
        if let Ok(g) = region_spec(a, scale, pix.width, pix.height) {
            let rgb = region_bytes(pix, g, g.height as nat);
            if let Ok(Some((tw, th))) = target_spec(a, g.width, g.height) {
                let x = choose|new: Seq<u8>|
                    {
                        &&& new.len() == 3 * (tw * th)
                        &&& #[trigger] resampled(g.width, g.height, rgb, tw, th, new)
                        &&& written(tw, th, new, a, to_file)
                    };
                let y = choose|new: Seq<u8>|
                    {
                        &&& new.len() == 3 * (tw * th)
                        &&& #[trigger] resampled(g.width, g.height, rgb, tw, th, new)
                        &&& written(tw, th, new, b, inline)
                    };
                assert(written(tw, th, x, a, to_file) && written(tw, th, y, b, inline));
                if settled(a, pix, g) {
                    assert(x == y);
                }
            }
        }
    }
}

/// The PNG file of a region holds the pixels of the PNG file of the page, each at its
/// place in the region.
pub proof fn law_png_of_a_region_is_cut_from_that_of_the_page(
    a: Tree,
    b: Tree,
    scale: Single,
    pix: Pixmap,
    part: RenderedView,
    page: RenderedView,
    g: Region,
)
    requires
        render_result(a, scale, pix, Ok(part)),
        render_result(b, scale, pix, Ok(page)),
        !names_jpeg(format_spec(a)) && !names_jpeg(format_spec(b)),
        region_spec(a, scale, pix.width, pix.height) == Ok::<Region, Seq<char>>(g),
        target_spec(a, g.width, g.height) == Ok::<Option<(u32, u32)>, Seq<char>>(None),
        b.get("x0"@) is None,
        target_spec(b, pix.width, pix.height) == Ok::<Option<(u32, u32)>, Seq<char>>(None),
    ensures
        png_picture(picture_file(part)) matches Some((w, h, cut)) && png_picture(
            picture_file(page),
        ) matches Some((pw, ph, all)) && {
            &&& w == g.width && h == g.height
            &&& pw == pix.width && ph == pix.height
            &&& forall|col: int, row: int, channel: int|
                0 <= col < w && 0 <= row < h && 0 <= channel < 3 ==> cut[#[trigger] byte_at(
                    w as int,
                    col,
                    row,
                    channel,
                )] == all[byte_at(pw as int, g.col + col, g.row + row, channel)]
        },
{
    let whole = Region { col: 0, row: 0, width: pix.width, height: pix.height };
    law_region_lies_on_page(a, scale, pix.width, pix.height);
    let cut = region_bytes(pix, g, g.height as nat);
    let all = region_bytes(pix, whole, pix.height as nat);
    assert forall|col: int, row: int, channel: int|
        0 <= col < g.width && 0 <= row < g.height && 0 <= channel < 3 implies cut[
        #[trigger] byte_at(g.width as int, col, row, channel)] == all[byte_at(
        pix.width as int,
        g.col + col,
        g.row + row,
        channel,
    )] by {
        law_crop_keeps_pixels(pix, g, g.height as nat, col, row, channel);
        law_crop_keeps_pixels(
            pix,
            whole,
            pix.height as nat,
            g.col + col,
            g.row + row,
            channel,
        );
    }
}

} // verus!
