//! A page is drawn as it is, where and how the arguments say.
use crate::args::float_arg_spec;
use crate::call::{answers, drawn, follows, need_spec, Answer, CallView, NeedView, TurnView};
use crate::document::{Pixmap, Rect};
use crate::float::{Double, Single, SINGLE_SCALE};
use crate::json::{Number, Tree};
use crate::laws::calls::{
    asks, calls, ends_with_error, law_scale_is_the_resolution_over_72, lemma_failed, lemma_opened,
    opens_to,
};
use crate::laws::numbers::{
    law_integers_are_exact, law_small_integers_are_exact_in_single_precision,
    law_whole_part_is_below, law_whole_products_are_exact, law_whole_quotients_are_exact,
};
use crate::laws::values::{
    has_members, is_number, is_text, law_answers_hold_what_they_are_made_of,
    law_coordinate_is_the_number_given, law_integers_are_shown, law_page_is_the_number_given,
    says_image, some_number,
};
use crate::picture::{
    jpeg_file, jpeg_size, names_jpeg, png_file, png_picture, quality_spec, resampled, resizable,
};
use crate::render::{
    at_least_one, byte_at, format_spec, law_crop_keeps_pixels, law_summary_describes_the_file,
    region_bytes, region_spec, render_result, render_scale_spec, target_spec, written, Region,
    RenderedView,
};
use crate::resize::{
    law_aspect_ratio_is_preserved, law_same_size_needs_no_resize, resize_dims_spec,
    scaled_side_spec,
};
use crate::text::decimal_spec;
use crate::tools::Tool;
use vstd::arithmetic::power2::*;
use vstd::prelude::*;

verus! {

/// The region that is drawn is made of the pixels of the page that are between the edges
/// given, each edge times the scale and without its fraction. Where there is no such pixel
/// the region is refused.
pub proof fn law_region_holds_the_pixels_between_the_edges(
    args: Tree,
    scale: Single,
    width: u32,
    height: u32,
    b: Rect,
    col: int,
    row: int,
)
    requires
        args.get("x0"@) is Some,
        float_arg_spec(args, "x0"@) == Ok::<Single, Seq<char>>(b.x0),
        float_arg_spec(args, "y0"@) == Ok::<Single, Seq<char>>(b.y0),
        float_arg_spec(args, "x1"@) == Ok::<Single, Seq<char>>(b.x1),
        float_arg_spec(args, "y1"@) == Ok::<Single, Seq<char>>(b.y1),
        0 <= col < width,
        0 <= row < height,
    ensures
        ({
            let across = b.x0.mul_spec(scale).whole() <= col < b.x1.mul_spec(scale).whole();
            let down = b.y0.mul_spec(scale).whole() <= row < b.y1.mul_spec(scale).whole();
            match region_spec(args, scale, width, height) {
                Ok(g) => {
                    &&& g.col <= col < g.col + g.width <==> across
                    &&& g.row <= row < g.row + g.height <==> down
                    &&& g.width > 0 && g.height > 0
                    &&& g.col + g.width <= width && g.row + g.height <= height
                },
                Err(e) => e == "Region has zero area"@ && !(across && down),
            }
        }),
{
}

/// Without a left edge the whole page is drawn.
pub proof fn law_whole_page_is_drawn_without_an_edge(
    args: Tree,
    scale: Single,
    width: u32,
    height: u32,
)
    requires
        args.get("x0"@) is None,
    ensures
        region_spec(args, scale, width, height) == Ok::<Region, Seq<char>>(
            Region { col: 0, row: 0, width, height },
        ),
{
}

/// A region with a left edge needs the other three, and the one that is missing is
/// reported.
pub proof fn law_region_needs_all_edges(args: Tree, scale: Single, width: u32, height: u32)
    requires
        some_number(args.get("x0"@)),
    ensures
        !some_number(args.get("y0"@)) ==> region_spec(args, scale, width, height) == Err::<
            Region,
            Seq<char>,
        >("Missing required parameter: "@ + "y0"@),
        some_number(args.get("y0"@)) && !some_number(args.get("x1"@)) ==> region_spec(
            args,
            scale,
            width,
            height,
        ) == Err::<Region, Seq<char>>("Missing required parameter: "@ + "x1"@),
        some_number(args.get("y0"@)) && some_number(args.get("x1"@)) && !some_number(
            args.get("y1"@),
        ) ==> region_spec(args, scale, width, height) == Err::<Region, Seq<char>>(
            "Missing required parameter: "@ + "y1"@,
        ),
{
}

/// The scale of 72 dots per inch is one, and that of a multiple is the factor.
pub proof fn law_scale_of_a_multiple_of_72(args: Tree, k: int)
    requires
        is_number(args.get("dpi"@), 72 * k),
        1 <= k <= 16,
    ensures
        render_scale_spec(args).finite(),
        render_scale_spec(args).value() == k * pow2(SINGLE_SCALE as nat),
{
    let one = pow2(SINGLE_SCALE as nat);
    let s = Double::from_int(72 * k).narrow_spec();
    lemma_pow2_pos(SINGLE_SCALE as nat);
    law_scale_is_the_resolution_over_72(args, 72 * k);
    law_small_integers_are_exact_in_single_precision(72 * k);
    assert((72 * k) * one > 0) by (nonlinear_arith)
        requires
            k >= 1,
            one > 0,
    ;
    law_whole_quotients_are_exact(s, k as nat, 72);
}

/// A pixel that a whole number of points falls on, at a whole scale, is the product.
proof fn lemma_pixel_of_points(args: Tree, key: Seq<char>, scale: Single, x: int, k: int)
    requires
        is_number(args.get(key), x),
        0 <= x,
        1 <= k <= 16,
        x * k < 0x100_0000,
        scale.finite(),
        scale.value() == k * pow2(SINGLE_SCALE as nat),
    ensures
        float_arg_spec(args, key) matches Ok(s) && s.mul_spec(scale).whole() == x * k,
{
    let one = pow2(SINGLE_SCALE as nat) as int;
    lemma_pow2_pos(SINGLE_SCALE as nat);
    assert(x <= x * k) by (nonlinear_arith)
        requires
            0 <= x,
            1 <= k,
    ;
    law_coordinate_is_the_number_given(args, key, x);
    let s = float_arg_spec(args, key)->Ok_0;
    assert(0 <= x * one && 0 < k * one && 0 <= (x * k) * one) by (nonlinear_arith)
        requires
            0 <= x,
            1 <= k,
            one > 0,
    ;
    assert(!s.negative()) by {
        law_small_integers_are_exact_in_single_precision(x);
        law_integers_are_exact(x);
    }
    law_whole_products_are_exact(s, scale, x as nat, k as nat);
    let p = s.mul_spec(scale);
    assert((x * k) * one < 0x1_0000_0000 * one) by (nonlinear_arith)
        requires
            x * k < 0x100_0000,
            one > 0,
    ;
    law_whole_part_is_below(p);
    let w = p.whole() as int;
    assert(w == x * k) by (nonlinear_arith)
        requires
            w * one <= (x * k) * one < (w + 1) * one,
            one > 0,
    ;
}

/// At a resolution of `72 * k` dots per inch, the region between whole numbers of points is
/// made of the pixels from `k` times the left edge up to `k` times the right edge, and from
/// `k` times the top up to `k` times the bottom, as far as they are on the page.
pub proof fn law_region_in_points_is_scaled_to_pixels(
    args: Tree,
    width: u32,
    height: u32,
    k: int,
    x0: int,
    y0: int,
    x1: int,
    y1: int,
    col: int,
    row: int,
)
    requires
        is_number(args.get("dpi"@), 72 * k),
        1 <= k <= 16,
        is_number(args.get("x0"@), x0) && 0 <= x0 && x0 * k < 0x100_0000,
        is_number(args.get("y0"@), y0) && 0 <= y0 && y0 * k < 0x100_0000,
        is_number(args.get("x1"@), x1) && 0 <= x1 && x1 * k < 0x100_0000,
        is_number(args.get("y1"@), y1) && 0 <= y1 && y1 * k < 0x100_0000,
        0 <= col < width,
        0 <= row < height,
    ensures
        match region_spec(args, render_scale_spec(args), width, height) {
            Ok(g) => {
                &&& g.col <= col < g.col + g.width <==> x0 * k <= col < x1 * k
                &&& g.row <= row < g.row + g.height <==> y0 * k <= row < y1 * k
            },
            Err(e) => e == "Region has zero area"@ && !(x0 * k <= col < x1 * k && y0 * k <= row < y1
                * k),
        },
{
    let scale = render_scale_spec(args);
    law_scale_of_a_multiple_of_72(args, k);
    lemma_pixel_of_points(args, "x0"@, scale, x0, k);
    lemma_pixel_of_points(args, "y0"@, scale, y0, k);
    lemma_pixel_of_points(args, "x1"@, scale, x1, k);
    lemma_pixel_of_points(args, "y1"@, scale, y1, k);
    let b = Rect {
        x0: float_arg_spec(args, "x0"@)->Ok_0,
        y0: float_arg_spec(args, "y0"@)->Ok_0,
        x1: float_arg_spec(args, "x1"@)->Ok_0,
        y1: float_arg_spec(args, "y1"@)->Ok_0,
    };
    law_region_holds_the_pixels_between_the_edges(args, scale, width, height, b, col, row);
}

/// Whether the bytes of a picture are the red, green and blue of the pixels of a region,
/// row by row.
pub open spec fn is_cut(rgb: Seq<u8>, pix: Pixmap, g: Region) -> bool {
    &&& rgb.len() == 3 * (g.width * g.height)
    &&& forall|col: int, row: int, channel: int|
        0 <= col < g.width && 0 <= row < g.height && 0 <= channel < 3 ==> rgb[#[trigger] byte_at(
            g.width as int,
            col,
            row,
            channel,
        )] == pix.samples@[(g.row + row) * pix.stride + (g.col + col) * pix.channels + channel]
}

/// The byte of a pixel is the one of its channel, after three bytes for each pixel before.
pub proof fn law_three_bytes_to_the_pixel(width: int, col: int, row: int, channel: int)
    ensures
        byte_at(width, col, row, channel) == 3 * (width * row + col) + channel,
{
}

proof fn lemma_is_cut(pix: Pixmap, g: Region)
    ensures
        is_cut(region_bytes(pix, g, g.height as nat), pix, g),
{
    let rgb = region_bytes(pix, g, g.height as nat);
    if g.height > 0 && g.width > 0 {
        law_crop_keeps_pixels(pix, g, g.height as nat, 0, 0, 0);
    } else {
        lemma_no_pixels(pix, g, g.height as nat);
    }
    assert forall|col: int, row: int, channel: int|
        0 <= col < g.width && 0 <= row < g.height && 0 <= channel < 3 implies rgb[
        #[trigger] byte_at(g.width as int, col, row, channel)] == pix.samples@[(g.row + row)
        * pix.stride + (g.col + col) * pix.channels + channel] by {
        law_crop_keeps_pixels(pix, g, g.height as nat, col, row, channel);
    }
}

proof fn lemma_no_pixels(pix: Pixmap, g: Region, height: nat)
    requires
        g.width == 0 || height == 0,
    ensures
        region_bytes(pix, g, height).len() == 0,
        g.width * height == 0,
    decreases height,
{
    if height > 0 {
        lemma_no_pixels(pix, g, (height - 1) as nat);
    }
    assert(g.width * height == 0) by (nonlinear_arith)
        requires
            g.width == 0 || height == 0,
    ;
}

/// Whether the arguments name the JPEG format.
pub open spec fn wants_jpeg(args: Tree) -> bool {
    is_text(args.get("format"@), "jpeg"@) || is_text(args.get("format"@), "jpg"@)
}

/// Whether `q` is the quality of the arguments: the number that they give, or 80 where they
/// give none. One beyond 100 stays beyond.
pub open spec fn is_quality(args: Tree, q: u8) -> bool {
    match args.get("quality"@) {
        Some(Tree::Number(Number::PosInt(k))) => if k <= 100 {
            q == k
        } else {
            q > 100
        },
        _ => q == 80,
    }
}

/// Whether a file is that of a picture, in the format of the arguments.
pub open spec fn is_file(file: Seq<u8>, args: Tree, w: u32, h: u32, rgb: Seq<u8>) -> bool {
    if wants_jpeg(args) {
        &&& jpeg_size(file) == Some((w, h))
        &&& exists|q: u8| #[trigger]
            is_quality(args, q) && jpeg_file(w, h, rgb, q) == Ok::<Seq<u8>, Seq<char>>(file)
    } else {
        &&& png_picture(file) == Some((w, h, rgb))
        &&& png_file(w, h, rgb) == Ok::<Seq<u8>, Seq<char>>(file)
    }
}

/// Whether a picture has no file in the format of the arguments, for the reason `e`.
pub open spec fn has_no_file(e: Seq<char>, args: Tree, w: u32, h: u32, rgb: Seq<u8>) -> bool {
    if wants_jpeg(args) {
        exists|q: u8| #[trigger]
            is_quality(args, q) && jpeg_file(w, h, rgb, q) == Err::<Seq<u8>, Seq<char>>(e)
    } else {
        png_file(w, h, rgb) == Err::<Seq<u8>, Seq<char>>(e)
    }
}

/// Whether a turn says of a file what it is: where, in which format, of which size, and of
/// how many bytes.
pub open spec fn tells_file(
    turn: TurnView,
    args: Tree,
    path: Seq<char>,
    w: u32,
    h: u32,
    bytes: nat,
) -> bool {
    turn matches TurnView::Ask(call) && need_spec(call) matches NeedView::PrettyText { value } && {
        &&& has_members(value, 5)
        &&& is_text(value.get("path"@), path)
        &&& match args.get("format"@) {
            Some(Tree::Text(f)) => is_text(value.get("format"@), f),
            _ => is_text(value.get("format"@), "png"@),
        }
        &&& is_number(value.get("width"@), w as int)
        &&& is_number(value.get("height"@), h as int)
        &&& bytes <= u64::MAX ==> is_number(value.get("bytes"@), bytes as int)
    }
}

/// Whether a turn hands out a file: it asks to write it to the file that the arguments
/// name, and once it is written says so; or, where they name none, it answers with the
/// image.
pub open spec fn hands_out(turn: TurnView, args: Tree, file: Seq<u8>, w: u32, h: u32) -> bool {
    match args.get("output_path"@) {
        Some(Tree::Text(path)) => turn matches TurnView::Ask(call) && {
            &&& need_spec(call) == (NeedView::WriteFile { path, bytes: file })
            &&& forall|next: TurnView| #[trigger]
                follows(call, Answer::Written(Ok(())), next) ==> tells_file(
                    next,
                    args,
                    path,
                    w,
                    h,
                    file.len(),
                )
        },
        _ => turn matches TurnView::Reply(v) && says_image(
            v,
            file,
            if wants_jpeg(args) {
                "image/jpeg"@
            } else {
                "image/png"@
            },
        ),
    }
}

/// Whether `s` is the side that goes with `target` for `source`, so that the aspect ratio
/// is kept: `side * target / source` to the nearest pixel, three parts in `2^53` aside, but
/// at least one pixel.
pub open spec fn keeps_ratio(s: u32, side: u32, target: u32, source: u32) -> bool {
    &&& s >= 1
    &&& s > 1 ==> 0x20_0000_0000_0000 * (s * source) <= 0x20_0000_0000_0000 * (side * target)
        + 0x10_0000_0000_0000 * source + 3 * (side * target)
    &&& s < u32::MAX ==> 0x20_0000_0000_0000 * (side * target) <= 0x20_0000_0000_0000 * (s
        * source) + 0x10_0000_0000_0000 * source + 3 * (side * target)
}

/// The number of pixels that a size in the arguments asks for: at least one.
pub open spec fn pixels(k: u64) -> u32 {
    if k == 0 {
        1
    } else {
        k as u32
    }
}

/// Whether a picture of a region has the size that the arguments ask for: the width, and
/// the height that goes with it; or the height, where no width is given; or the size of the
/// region.
pub open spec fn has_size(args: Tree, g: Region, w: u32, h: u32) -> bool {
    match args.get("width"@) {
        Some(Tree::Number(Number::PosInt(k))) => k <= u32::MAX && w == pixels(k) && keeps_ratio(
            h,
            g.height,
            w,
            g.width,
        ),
        _ => match args.get("height"@) {
            Some(Tree::Number(Number::PosInt(k))) => k <= u32::MAX && h == pixels(k) && keeps_ratio(
                w,
                g.width,
                h,
                g.height,
            ),
            _ => w == g.width && h == g.height,
        },
    }
}

/// Whether the bytes of a picture come of the pixels of a region: they are those pixels
/// where the picture has the size of the region, and an outcome of resampling them where it
/// has another.
pub open spec fn comes_of(
    rgb: Seq<u8>,
    pix: Pixmap,
    g: Region,
    args: Tree,
    w: u32,
    h: u32,
) -> bool {
    exists|cut: Seq<u8>| #[trigger]
        is_cut(cut, pix, g) && {
            ||| rgb == cut && w == g.width && h == g.height
            ||| sized(args) && resampled(g.width, g.height, cut, w, h, rgb)
        }
}

/// Whether the arguments ask for a size.
pub open spec fn sized(args: Tree) -> bool {
    args.get("width"@) is Some || args.get("height"@) is Some
}

/// The side that goes with a target keeps the aspect ratio, but has at least one pixel.
proof fn lemma_keeps_ratio(side: u32, target: u32, source: u32)
    requires
        source > 0,
    ensures
        scaled_side_spec(side, target, source) <= u32::MAX,
        keeps_ratio(
            at_least_one(scaled_side_spec(side, target, source) as u32),
            side,
            target,
            source,
        ),
        scaled_side_spec(side, target, source) > 0 ==> keeps_ratio(
            scaled_side_spec(side, target, source) as u32,
            side,
            target,
            source,
        ),
{
    law_aspect_ratio_is_preserved(side, target, source);
    let s = scaled_side_spec(side, target, source) as u32;
    if s == 0 {
        assert(s * source <= 1 * source) by (nonlinear_arith)
            requires
                s == 0,
        ;
    }
}

/// The size that a picture is resized to is the one that the arguments ask for.
proof fn lemma_has_size(args: Tree, g: Region)
    requires
        g.width > 0,
        g.height > 0,
    ensures
        match target_spec(args, g.width, g.height) {
            Ok(Some((tw, th))) => has_size(args, g, tw, th) && sized(args),
            Ok(None) => has_size(args, g, g.width, g.height),
            Err(_) => true,
        },
{
    match args.get("width"@) {
        Some(Tree::Number(Number::PosInt(k))) => {
            if k <= u32::MAX {
                let t = pixels(k);
                lemma_keeps_ratio(g.height, t, g.width);
            }
        },
        _ => {
            if let Some(Tree::Number(Number::PosInt(k))) = args.get("height"@) {
                if k <= u32::MAX {
                    let t = pixels(k);
                    lemma_keeps_ratio(g.width, t, g.height);
                }
            }
        },
    }
}

/// What is written of a picture is handed out.
proof fn lemma_handed_out(
    w: u32,
    h: u32,
    rgb: Seq<u8>,
    args: Tree,
    r: Result<RenderedView, Seq<char>>,
)
    requires
        written(w, h, rgb, args, r),
        r is Ok,
    ensures
        exists|file: Seq<u8>| #[trigger]
            is_file(file, args, w, h, rgb) && hands_out(drawn(r), args, file, w, h),
{
    let d = r->Ok_0;
    let q = quality_spec(args);
    assert(is_quality(args, q));
    law_summary_describes_the_file(w, h, rgb, args);
    law_integers_are_shown(w as int);
    law_integers_are_shown(h as int);
    lemma_format(args);
    match d {
        RenderedView::File { path, bytes, summary } => {
            if bytes.len() <= u64::MAX {
                law_integers_are_shown(bytes.len() as int);
            }
            assert(is_file(bytes, args, w, h, rgb));
            assert(hands_out(drawn(r), args, bytes, w, h));
        },
        RenderedView::Inline(v) => {
            let mime = if wants_jpeg(args) {
                "image/jpeg"@
            } else {
                "image/png"@
            };
            let file = if wants_jpeg(args) {
                jpeg_file(w, h, rgb, q)->Ok_0
            } else {
                png_file(w, h, rgb)->Ok_0
            };
            law_answers_hold_what_they_are_made_of(seq![], file, mime);
            assert(is_file(file, args, w, h, rgb));
            assert(hands_out(drawn(r), args, file, w, h));
        },
    }
}

proof fn lemma_format(args: Tree)
    ensures
        names_jpeg(format_spec(args)) == wants_jpeg(args),
{
    reveal_strlit("jpeg");
    reveal_strlit("jpg");
    reveal_strlit("png");
    assert("jpeg"@.len() == 4 && "jpg"@.len() == 3 && "png"@.len() == 3);
    assert("jpg"@[0] == 'j' && "png"@[0] == 'p');
}

/// Whether a picture can be written in the format of the arguments: a PNG file takes every
/// picture that has pixels, a JPEG file one of up to 65535 pixels a side.
pub open spec fn fits_the_format(args: Tree, w: u32, h: u32) -> bool {
    w >= 1 && h >= 1 && (wants_jpeg(args) ==> w <= 65535 && h <= 65535)
}

/// Whether a turn hands out a picture of a region of a pixmap, in the size, in the format
/// and at the place that the arguments say.
pub open spec fn shows_region(turn: TurnView, args: Tree, pix: Pixmap, g: Region) -> bool {
    exists|w: u32, h: u32, rgb: Seq<u8>, file: Seq<u8>|
        {
            &&& #[trigger] is_file(file, args, w, h, rgb)
            &&& has_size(args, g, w, h)
            &&& fits_the_format(args, w, h)
            &&& comes_of(rgb, pix, g, args, w, h)
            &&& hands_out(turn, args, file, w, h)
        }
}

/// Whether a turn reports that a picture of a region does not fit the format, in the words
/// of the encoder.
pub open spec fn reports_misfit(turn: TurnView, args: Tree, pix: Pixmap, g: Region) -> bool {
    exists|e: Seq<char>, w: u32, h: u32, rgb: Seq<u8>|
        {
            &&& #[trigger] has_no_file(e, args, w, h, rgb)
            &&& has_size(args, g, w, h)
            &&& !fits_the_format(args, w, h)
            &&& comes_of(rgb, pix, g, args, w, h)
            &&& ends_with_error(turn, e)
        }
}

/// Whether a size in the arguments is one that a picture can have.
pub open spec fn size_in_range(args: Tree, key: Seq<char>) -> bool {
    args.get(key) matches Some(Tree::Number(Number::PosInt(k))) ==> k <= u32::MAX
}

/// What is written of a picture that comes of a region shows the region, and an error is
/// reported where it does not fit the format.
proof fn lemma_shows_region(
    w: u32,
    h: u32,
    rgb: Seq<u8>,
    args: Tree,
    pix: Pixmap,
    g: Region,
    r: Result<RenderedView, Seq<char>>,
)
    requires
        written(w, h, rgb, args, r),
        has_size(args, g, w, h),
        comes_of(rgb, pix, g, args, w, h),
    ensures
        r is Ok <==> fits_the_format(args, w, h),
        r is Ok ==> shows_region(drawn(r), args, pix, g),
        r is Err ==> reports_misfit(drawn(r), args, pix, g),
{
    lemma_format(args);
    match r {
        Ok(_) => {
            lemma_handed_out(w, h, rgb, args, r);
            let file = choose|file: Seq<u8>| #[trigger]
                is_file(file, args, w, h, rgb) && hands_out(drawn(r), args, file, w, h);
            assert(is_file(file, args, w, h, rgb));
        },
        Err(e) => {
            lemma_failed(e);
            assert(is_quality(args, quality_spec(args)));
            assert(has_no_file(e, args, w, h, rgb));
        },
    }
}

/// What comes of a region shows it, or is an error that says why not.
proof fn lemma_rendered(
    args: Tree,
    scale: Single,
    pix: Pixmap,
    g: Region,
    r: Result<RenderedView, Seq<char>>,
)
    requires
        render_result(args, scale, pix, r),
        pix.channels >= 3,
        region_spec(args, scale, pix.width, pix.height) == Ok::<Region, Seq<char>>(g),
        g.width > 0,
        g.height > 0,
        size_in_range(args, "width"@),
        size_in_range(args, "height"@),
    ensures
        r is Ok ==> shows_region(drawn(r), args, pix, g),
        r is Err ==> reports_misfit(drawn(r), args, pix, g),
{
    let rgb = region_bytes(pix, g, g.height as nat);
    lemma_is_cut(pix, g);
    lemma_has_size(args, g);
    match target_spec(args, g.width, g.height) {
        Ok(Some((tw, th))) => {
            let new = choose|new: Seq<u8>|
                {
                    &&& new.len() == 3 * (tw * th)
                    &&& #[trigger] resampled(g.width, g.height, rgb, tw, th, new)
                    &&& written(tw, th, new, args, r)
                };
            assert(comes_of(new, pix, g, args, tw, th));
            lemma_shows_region(tw, th, new, args, pix, g, r);
        },
        Ok(None) => {
            assert(comes_of(rgb, pix, g, args, g.width, g.height));
            lemma_shows_region(g.width, g.height, rgb, args, pix, g, r);
        },
        Err(_) => {},
    }
}

/// `render` hands out a picture of the region, at the scale of the resolution, in the size,
/// in the format and at the place that the arguments say. It fails only where no picture of
/// that size fits the format.
pub proof fn law_page_is_drawn_as_the_arguments_say(
    params: Tree,
    args: Tree,
    path: Seq<char>,
    n: int,
    call: CallView,
    pix: Pixmap,
    g: Region,
    turn: TurnView,
)
    requires
        calls(params, "render"@, args, path),
        is_number(args.get("page"@), n),
        i32::MIN <= n <= i32::MAX,
        opens_to(params, TurnView::Ask(call)),
        follows(call, Answer::Pixmap(Ok(pix)), turn),
        pix.channels >= 3,
        region_spec(args, render_scale_spec(args), pix.width, pix.height) == Ok::<
            Region,
            Seq<char>,
        >(g),
        g.width > 0 && g.height > 0,
        size_in_range(args, "width"@),
        size_in_range(args, "height"@),
    ensures
        shows_region(turn, args, pix, g) || reports_misfit(turn, args, pix, g),
{
    lemma_opened(params, args, path, Tool::Render, TurnView::Ask(call));
    law_page_is_the_number_given(args, n);
    let scale = render_scale_spec(args);
    let r = choose|r: Result<RenderedView, Seq<char>>| #[trigger]
        render_result(args, scale, pix, r) && turn == drawn(r);
    lemma_rendered(args, scale, pix, g, r);
}

/// A pixmap without red, green and blue, a region that is refused, and a size that no
/// picture can have are reported.
pub proof fn law_what_cannot_be_drawn_is_refused(
    params: Tree,
    args: Tree,
    path: Seq<char>,
    n: int,
    call: CallView,
    pix: Pixmap,
    turn: TurnView,
)
    requires
        calls(params, "render"@, args, path),
        is_number(args.get("page"@), n),
        i32::MIN <= n <= i32::MAX,
        opens_to(params, TurnView::Ask(call)),
        follows(call, Answer::Pixmap(Ok(pix)), turn),
    ensures
        pix.channels < 3 ==> ends_with_error(
            turn,
            "Unexpected pixel format: "@ + decimal_spec(pix.channels as nat)
                + " channels (expected >= 3)"@,
        ),
        pix.channels >= 3 ==> match region_spec(
            args,
            render_scale_spec(args),
            pix.width,
            pix.height,
        ) {
            Err(e) => ends_with_error(turn, e),
            Ok(_) => match args.get("width"@) {
                Some(Tree::Number(Number::PosInt(k))) => k > u32::MAX ==> ends_with_error(
                    turn,
                    "Size out of range: "@ + decimal_spec(k as nat),
                ),
                _ => match args.get("height"@) {
                    Some(Tree::Number(Number::PosInt(k))) => k > u32::MAX ==> ends_with_error(
                        turn,
                        "Size out of range: "@ + decimal_spec(k as nat),
                    ),
                    _ => true,
                },
            },
        },
{
    lemma_opened(params, args, path, Tool::Render, TurnView::Ask(call));
    law_page_is_the_number_given(args, n);
    let scale = render_scale_spec(args);
    let r = choose|r: Result<RenderedView, Seq<char>>| #[trigger]
        render_result(args, scale, pix, r) && turn == drawn(r);
    if let Err(e) = r {
        lemma_failed(e);
    }
}

/// A picture that is asked for in the width or the height that it has is not resized.
pub proof fn law_size_that_is_there_is_kept(args: Tree, g: Region)
    requires
        g.width > 0 && g.height > 0,
        is_number(args.get("width"@), g.width as int) || (args.get("width"@) is None && is_number(
            args.get("height"@),
            g.height as int,
        )),
    ensures
        target_spec(args, g.width, g.height) == Ok::<Option<(u32, u32)>, Seq<char>>(None),
{
    law_same_size_needs_no_resize(g.width, g.height);
}

/// A pixmap whose rows are long enough for their pixels, and that has all its rows, can be
/// measured, and drawn as it is; it can be drawn in another size where the picture of the
/// region can be resized to it.
pub proof fn law_complete_pixmaps_are_taken(call: CallView, pix: Pixmap)
    requires
        need_spec(call) matches NeedView::Pixmap { .. },
        pix.samples@.len() >= pix.height * pix.stride,
        pix.stride >= pix.width * pix.channels,
    ensures
        call is Profile ==> answers(call, Answer::Pixmap(Ok(pix))),
        call matches CallView::Render { scale, args, .. } ==> {
            &&& !sized(args) ==> answers(call, Answer::Pixmap(Ok(pix)))
            &&& (forall|g: Region, tw: u32, th: u32|
                region_spec(args, scale, pix.width, pix.height) == Ok::<Region, Seq<char>>(g)
                    && target_spec(args, g.width, g.height) == Ok::<Option<(u32, u32)>, Seq<char>>(
                    Some((tw, th)),
                ) ==> #[trigger] resizable(g.width, g.height, tw, th)) ==> answers(
                call,
                Answer::Pixmap(Ok(pix)),
            )
        },
{
    if pix.width > 0 && pix.height > 0 {
        assert((pix.height - 1) * pix.stride + (pix.width - 1) * pix.channels + pix.channels
            <= pix.height * pix.stride) by (nonlinear_arith)
            requires
                pix.stride >= pix.width * pix.channels,
                pix.height > 0,
                pix.width > 0,
        ;
    }
    assert(pix.wf());
    if let CallView::Render { scale, args, .. } = call {
        if let Ok(g) = region_spec(args, scale, pix.width, pix.height) {
            if let Ok(Some((tw, th))) = target_spec(args, g.width, g.height) {
                let b = resizable(g.width, g.height, tw, th);
            }
        }
    }
}

/// A picture of up to 8192 pixels a side can be resized to any other such size.
pub proof fn law_pictures_of_ordinary_size_can_be_resized(w: u32, h: u32, tw: u32, th: u32)
    requires
        w <= 8192 && h <= 8192 && tw <= 8192 && th <= 8192,
    ensures
        resizable(w, h, tw, th),
{
    assert(w * th <= 8192 * 8192 && tw * th <= 8192 * 8192) by (nonlinear_arith)
        requires
            w <= 8192,
            tw <= 8192,
            th <= 8192,
    ;
}

/// The size that is asked for has the width that is given, and the height that goes with
/// it; or, where no width is given, the height, and the width that goes with it. There is
/// none where none is given, or where the picture has it.
pub proof fn law_resized_pictures_keep_their_ratio(
    w: u32,
    h: u32,
    tw: Option<u32>,
    th: Option<u32>,
)
    requires
        w > 0 && h > 0,
    ensures
        match (resize_dims_spec(w, h, tw, th), tw, th) {
            (Some((a, b)), Some(t), _) => a == t && (a != w || b != h) && (b > 0 ==> keeps_ratio(
                b,
                h,
                t,
                w,
            )) && (b == 0 ==> keeps_ratio(1, h, t, w)),
            (Some((a, b)), None, Some(t)) => b == t && (a != w || b != h) && (a > 0 ==> keeps_ratio(
                a,
                w,
                t,
                h,
            )) && (a == 0 ==> keeps_ratio(1, w, t, h)),
            (Some(_), None, None) => false,
            (None, Some(t), _) => t == w && keeps_ratio(h, h, t, w),
            (None, None, Some(t)) => t == h && keeps_ratio(w, w, t, h),
            (None, None, None) => true,
        },
{
    if let Some(t) = tw {
        lemma_keeps_ratio(h, t, w);
    } else if let Some(t) = th {
        lemma_keeps_ratio(w, t, h);
    }
}

/// A side of up to `2^20` pixels can be resized to any other, one of up to `2^21` to one of
/// up to `2^23`, and a longer one not at all; there must be room for the rows of the new
/// height at sixteen bytes a pixel, and for the result at three.
pub proof fn law_limits_of_resizing(w: u32, h: u32, tw: u32, th: u32)
    requires
        w > 0 && h > 0,
        tw != w || th != h,
    ensures
        resizable(w, h, tw, th) <==> {
            &&& w <= 1048576 || (w <= 2097152 && tw <= 8388608)
            &&& h <= 1048576 || (h <= 2097152 && th <= 8388608)
            &&& 16 * (w * th) <= isize::MAX
            &&& 3 * (tw * th) <= isize::MAX
        },
{
}

} // verus!
