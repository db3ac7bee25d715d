//! Luminance along an axis of a page.
use crate::document::{pixel_offset, Pixmap};
use crate::float::{Double, DOUBLE_INF, DOUBLE_SCALE};
use crate::json::{agree_but, int_tree, items_view, Json, Tree};
use crate::render::{format_error, format_error_spec};
use crate::rounding::{
    excess, half_even, lemma_bit_len_scale, lemma_bit_len_unique, lemma_nearest_digits,
    lemma_nearest_exact, nearest,
};
use crate::text::{joined, same};
use vstd::arithmetic::div_mod::*;
use vstd::arithmetic::mul::*;
use vstd::arithmetic::power2::*;
use vstd::prelude::*;

verus! {

/// The luminance of a pixel.
pub open spec fn lum_spec(pix: Pixmap, col: int, row: int) -> nat {
    let off = pixel_offset(pix, col, row);
    ((pix.samples@[off] * 299 + pix.samples@[off + 1] * 587 + pix.samples@[off + 2] * 114)
        / 1000) as nat
}

/// The luminance of a pixel.
fn lum(pix: &Pixmap, col: u32, row: u32) -> (r: u8)
    requires
        pix.wf(),
        pix.channels >= 3,
        col < pix.width,
        row < pix.height,
    ensures
        r == lum_spec(*pix, col as int, row as int),
{
    let off: usize = pix.offset(col, row);
    let r: u32 = pix.samples[off] as u32;
    let g: u32 = pix.samples[off + 1] as u32;
    let b: u32 = pix.samples[off + 2] as u32;
    ((r * 299 + g * 587 + b * 114) / 1000) as u8
}

/// The luminance of the pixel at `along` on the axis and `across` beside it.
pub open spec fn lum_at(pix: Pixmap, vertical: bool, along: int, across: int) -> nat {
    if vertical {
        lum_spec(pix, across, along)
    } else {
        lum_spec(pix, along, across)
    }
}

/// The sum of the luminances at `along`, from `lo` up to `hi` across the axis.
pub open spec fn lum_sum(pix: Pixmap, vertical: bool, along: int, lo: int, hi: int) -> nat
    decreases hi - lo,
{
    if hi <= lo {
        0
    } else {
        lum_sum(pix, vertical, along, lo, hi - 1) + lum_at(pix, vertical, along, hi - 1)
    }
}

/// The mean luminance at `along`, from `lo` up to `hi` across the axis; zero where
/// there is nothing across.
pub open spec fn mean_lum(pix: Pixmap, vertical: bool, along: int, lo: int, hi: int) -> u8 {
    if hi <= lo {
        0
    } else {
        (lum_sum(pix, vertical, along, lo, hi) / ((hi - lo) as nat)) as u8
    }
}

/// The number of pixels along an axis.
pub open spec fn length_spec(pix: Pixmap, vertical: bool) -> u32 {
    if vertical {
        pix.height
    } else {
        pix.width
    }
}

/// The number of pixels across an axis.
pub open spec fn breadth_spec(pix: Pixmap, vertical: bool) -> u32 {
    if vertical {
        pix.width
    } else {
        pix.height
    }
}

/// The mean luminance at each pixel along an axis.
pub open spec fn profile_spec(pix: Pixmap, vertical: bool, lo: int, hi: int) -> Seq<u8> {
    Seq::new(
        length_spec(pix, vertical) as nat,
        |along: int| mean_lum(pix, vertical, along, lo, hi),
    )
}

/// The middle of the band that the arguments give: the offset in whole points, on the
/// page.
pub open spec fn band_center(offset: Double, dim: nat) -> nat {
    if offset.whole(0) < dim {
        offset.whole(0)
    } else if dim == 0 {
        0
    } else {
        (dim - 1) as nat
    }
}

/// The number of points on either side of the middle of a band of width `band`.
pub open spec fn band_half(args: Tree) -> nat {
    match args.double_at("band_width"@) {
        Some(b) => b.whole(1),
        None => 5,
    }
}

/// The range across an axis that the arguments ask for: a band round their offset, or
/// all of it where they have none.
pub open spec fn perp_range_spec(args: Tree, dim: nat) -> (nat, nat) {
    match args.double_at("offset"@) {
        Some(offset) => {
            let center = band_center(offset, dim);
            let half = band_half(args);
            (
                if half < center {
                    (center - half) as nat
                } else {
                    0
                },
                if center + half + 1 < dim {
                    center + half + 1
                } else {
                    dim
                },
            )
        },
        None => (0, dim),
    }
}

/// The middle of the band round `offset`.
fn center_of(offset: Double, dim: usize) -> (r: usize)
    ensures
        r == band_center(offset, dim as nat),
{
    let at: usize = offset.to_usize(0);
    if at < dim {
        at
    } else if dim == 0 {
        0
    } else {
        dim - 1
    }
}

/// The number of points on either side of the middle of the band.
fn half_of(args: &Json) -> (r: usize)
    ensures
        r == band_half(args@),
{
    match args.double_at("band_width") {
        Some(b) => b.to_usize(1),
        None => 5,
    }
}

/// The range across an axis of `dim` pixels that the arguments ask for.
pub fn perp_range(args: &Json, dim: usize) -> (r: Result<(usize, usize), String>)
    ensures
        r matches Ok((lo, hi)) && (lo as nat, hi as nat) == perp_range_spec(args@, dim as nat),
{
    match args.double_at("offset") {
        Some(offset) => {
            let center: usize = center_of(offset, dim);
            let half: usize = half_of(args);
            let lo: usize = if half < center {
                center - half
            } else {
                0
            };
            let hi: usize = if center < dim && half < dim - center - 1 {
                center + half + 1
            } else {
                dim
            };
            Ok((lo, hi))
        },
        None => Ok((0, dim)),
    }
}

/// A range across an axis lies on the page; it is not empty, and holds the middle of
/// the band, where the page has a pixel.
pub proof fn law_range_lies_on_page(args: Tree, dim: nat)
    ensures
        ({
            let (lo, hi) = perp_range_spec(args, dim);
            &&& lo <= hi <= dim
            &&& dim > 0 ==> lo < hi
            &&& args.double_at("offset"@) matches Some(offset) ==> dim > 0 ==> lo <= band_center(
                offset,
                dim,
            ) < hi
        }),
{
}

/// A luminance is at most 255, and so is a mean of luminances.
proof fn lemma_lum_sum_bound(pix: Pixmap, vertical: bool, along: int, lo: int, hi: int)
    requires
        lo <= hi,
    ensures
        lum_sum(pix, vertical, along, lo, hi) <= 255 * (hi - lo),
    decreases hi - lo,
{
    if lo < hi {
        lemma_lum_sum_bound(pix, vertical, along, lo, hi - 1);
    }
}

/// The mean luminance at `along`.
fn mean_at(pix: &Pixmap, vertical: bool, along: u32, lo: u32, hi: u32) -> (r: u8)
    requires
        pix.wf(),
        pix.channels >= 3,
        along < length_spec(*pix, vertical),
        lo <= hi <= breadth_spec(*pix, vertical),
    ensures
        r == mean_lum(*pix, vertical, along as int, lo as int, hi as int),
{
    let mut sum: u64 = 0;
    let mut across: u32 = lo;
    while across < hi
        invariant
            pix.wf(),
            pix.channels >= 3,
            along < length_spec(*pix, vertical),
            lo <= across <= hi <= breadth_spec(*pix, vertical),
            sum == lum_sum(*pix, vertical, along as int, lo as int, across as int),
            sum <= 255 * (across - lo),
        decreases hi - across,
    {
        let value: u8 = if vertical {
            lum(pix, across, along)
        } else {
            lum(pix, along, across)
        };
        sum = sum + value as u64;
        across += 1;
    }
    if hi <= lo {
        return 0;
    }
    let span: u64 = (hi - lo) as u64;
    assert(sum / span <= 255) by (nonlinear_arith)
        requires
            sum <= 255 * span,
            span > 0,
    ;
    (sum / span) as u8
}

/// The mean luminance at each pixel along an axis.
pub fn profile(pix: &Pixmap, vertical: bool, lo: u32, hi: u32) -> (r: Vec<u8>)
    requires
        pix.wf(),
        pix.channels >= 3,
        lo <= hi <= breadth_spec(*pix, vertical),
    ensures
        r@ == profile_spec(*pix, vertical, lo as int, hi as int),
{
    let length: u32 = if vertical {
        pix.height
    } else {
        pix.width
    };
    let mut out: Vec<u8> = Vec::new();
    let mut along: u32 = 0;
    while along < length
        invariant
            pix.wf(),
            pix.channels >= 3,
            along <= length,
            length == length_spec(*pix, vertical),
            lo <= hi <= breadth_spec(*pix, vertical),
            out@ == profile_spec(*pix, vertical, lo as int, hi as int).take(along as int),
        decreases length - along,
    {
        let ghost all = profile_spec(*pix, vertical, lo as int, hi as int);
        out.push(mean_at(pix, vertical, along, lo, hi));
        assert(all.take(along + 1) =~= all.take(along as int).push(all[along as int]));
        along += 1;
    }
    assert(out@ =~= profile_spec(*pix, vertical, lo as int, hi as int));
    out
}

/// The first place where a profile is below the threshold.
pub open spec fn first_below(p: Seq<u8>, threshold: u64) -> Option<nat>
    decreases p.len(),
{
    if p.len() == 0 {
        None
    } else if first_below(p.drop_last(), threshold) is Some {
        first_below(p.drop_last(), threshold)
    } else if p.last() < threshold {
        Some((p.len() - 1) as nat)
    } else {
        None
    }
}

/// The place after the last one where a profile is below the threshold.
pub open spec fn end_below(p: Seq<u8>, threshold: u64) -> Option<nat>
    decreases p.len(),
{
    if p.len() == 0 {
        None
    } else if p.last() < threshold {
        Some(p.len())
    } else {
        end_below(p.drop_last(), threshold)
    }
}

/// Where a profile is below the threshold: the first place, and the place after the
/// last one.
pub fn content_bounds(p: &Vec<u8>, threshold: u64) -> (r: (Option<usize>, Option<usize>))
    ensures
        match r.0 {
            Some(i) => first_below(p@, threshold) == Some(i as nat),
            None => first_below(p@, threshold) is None,
        },
        match r.1 {
            Some(i) => end_below(p@, threshold) == Some(i as nat),
            None => end_below(p@, threshold) is None,
        },
{
    let mut start: Option<usize> = None;
    let mut end: Option<usize> = None;
    let mut i: usize = 0;
    while i < p.len()
        invariant
            i <= p@.len(),
            match start {
                Some(j) => first_below(p@.take(i as int), threshold) == Some(j as nat),
                None => first_below(p@.take(i as int), threshold) is None,
            },
            match end {
                Some(j) => end_below(p@.take(i as int), threshold) == Some(j as nat),
                None => end_below(p@.take(i as int), threshold) is None,
            },
        decreases p@.len() - i,
    {
        assert(p@.take(i + 1).drop_last() =~= p@.take(i as int));
        if (p[i] as u64) < threshold {
            if start.is_none() {
                start = Some(i);
            }
            end = Some(i + 1);
        }
        i += 1;
    }
    assert(p@.take(p@.len() as int) =~= p@);
    (start, end)
}

/// The luminance below which a point counts as content.
pub open spec fn threshold_spec(args: Tree) -> u64 {
    match args.u64_at("threshold"@) {
        Some(t) => t,
        None => 250,
    }
}

/// An optional place as a JSON value.
pub open spec fn place_tree(place: Option<nat>) -> Tree {
    match place {
        Some(n) => int_tree(n as int),
        None => Tree::Null,
    }
}

/// An optional place as a JSON value.
fn place_json(place: Option<usize>) -> (r: Json)
    ensures
        match place {
            Some(n) => r@ == place_tree(Some(n as nat)),
            None => r@ == place_tree(None),
        },
{
    match place {
        Some(n) => Json::unsigned(n as u64),
        None => Json::Null,
    }
}

/// A run of bytes as a JSON value.
pub open spec fn bytes_tree(p: Seq<u8>) -> Tree {
    Tree::Array(Seq::new(p.len(), |i: int| int_tree(p[i] as int)))
}

/// A run of bytes as a JSON value.
fn bytes_json(p: &Vec<u8>) -> (r: Json)
    ensures
        r@ == bytes_tree(p@),
{
    let mut out: Vec<Json> = Vec::new();
    let mut i: usize = 0;
    while i < p.len()
        invariant
            i <= p@.len(),
            out@.len() == i,
            forall|j: int| 0 <= j < i ==> #[trigger] out@[j]@ == int_tree(p@[j] as int),
        decreases p@.len() - i,
    {
        out.push(Json::unsigned(p[i] as u64));
        i += 1;
    }
    assert(items_view(out@) =~= bytes_tree(p@)->Array_0);
    Json::array(out)
}

/// What is said of a profile.
pub open spec fn profile_tree(
    axis: Seq<char>,
    page: i32,
    length: u32,
    threshold: u64,
    p: Seq<u8>,
) -> Tree {
    Tree::Object(
        seq![
            ("axis"@, Tree::Text(axis)),
            ("page"@, int_tree(page as int)),
            ("length"@, int_tree(length as int)),
            ("threshold"@, int_tree(threshold as int)),
            ("content_start"@, place_tree(first_below(p, threshold))),
            ("content_end"@, place_tree(end_below(p, threshold))),
            ("profile"@, bytes_tree(p)),
        ],
    )
}

/// What is said of a profile.
fn profile_json(axis: &str, page: i32, length: u32, threshold: u64, p: &Vec<u8>) -> (r: Json)
    ensures
        r@ == profile_tree(axis@, page, length, threshold, p@),
{
    let (start, end): (Option<usize>, Option<usize>) = content_bounds(p, threshold);
    let r: Json = Json::object().with("axis", Json::text(axis)).with(
        "page",
        Json::integer(page as i64),
    ).with("length", Json::unsigned(length as u64)).with(
        "threshold",
        Json::unsigned(threshold),
    ).with("content_start", place_json(start)).with("content_end", place_json(end)).with(
        "profile",
        bytes_json(p),
    );
    assert(r@->Object_0 =~= profile_tree(axis@, page, length, threshold, p@)->Object_0);
    r
}

/// The direction that an axis names: whether it is the vertical one.
pub open spec fn direction_spec(axis: Seq<char>) -> Option<bool> {
    if axis == "vertical"@ {
        Some(true)
    } else if axis == "horizontal"@ {
        Some(false)
    } else {
        None
    }
}

/// The direction that an axis names.
fn direction(axis: &str) -> (r: Option<bool>)
    ensures
        r == direction_spec(axis@),
{
    if same(axis, "vertical") {
        Some(true)
    } else if same(axis, "horizontal") {
        Some(false)
    } else {
        None
    }
}

/// The message for an axis that is neither vertical nor horizontal.
pub open spec fn axis_error_spec(axis: Seq<char>) -> Seq<char> {
    "axis must be \"vertical\" or \"horizontal\", got \""@ + axis + "\""@
}

/// Whether a pixmap holds the pixels of the profile along an axis.
pub open spec fn profilable(axis: Seq<char>, pix: Pixmap) -> bool {
    pix.channels >= 3 && direction_spec(axis) is Some ==> pix.wf()
}

/// Whether a pixmap holds the pixels of the profile along an axis.
pub fn can_profile(axis: &str, pix: &Pixmap) -> (r: bool)
    ensures
        r == profilable(axis@, *pix),
{
    pix.channels < 3 || direction(axis).is_none() || pix.is_complete()
}

/// The profile of a page along an axis, from its pixmap at one pixel to the point.
pub open spec fn tool_intensity_profile_spec(
    page: i32,
    axis: Seq<char>,
    args: Tree,
    pix: Pixmap,
) -> Result<Tree, Seq<char>> {
    if pix.channels < 3 {
        Err(format_error_spec(pix.channels))
    } else {
        match direction_spec(axis) {
            Some(vertical) => {
                let (lo, hi) = perp_range_spec(args, breadth_spec(pix, vertical) as nat);
                Ok(
                    profile_tree(
                        axis,
                        page,
                        length_spec(pix, vertical),
                        threshold_spec(args),
                        profile_spec(pix, vertical, lo as int, hi as int),
                    ),
                )
            },
            None => Err(axis_error_spec(axis)),
        }
    }
}

/// The profile of a page along an axis, from its pixmap at one pixel to the point.
pub fn tool_intensity_profile(page: i32, axis: &str, args: &Json, pix: &Pixmap) -> (r: Result<
    Json,
    String,
>)
    requires
        profilable(axis@, *pix),
    ensures
        match r {
            Ok(v) => tool_intensity_profile_spec(page, axis@, args@, *pix) == Ok::<
                Tree,
                Seq<char>,
            >(v@),
            Err(e) => tool_intensity_profile_spec(page, axis@, args@, *pix) == Err::<
                Tree,
                Seq<char>,
            >(e@),
        },
{
    if pix.channels < 3 {
        return Err(format_error(pix.channels));
    }
    let vertical: bool = match direction(axis) {
        Some(v) => v,
        None => {
            let head: String = joined("axis must be \"vertical\" or \"horizontal\", got \"", axis);
            return Err(joined(head.as_str(), "\""));
        },
    };
    let breadth: u32 = if vertical {
        pix.width
    } else {
        pix.height
    };
    let length: u32 = if vertical {
        pix.height
    } else {
        pix.width
    };
    let threshold: u64 = match args.u64_at("threshold") {
        Some(t) => t,
        None => 250,
    };
    match perp_range(args, breadth as usize) {
        Ok((lo, hi)) => {
            proof {
                law_range_lies_on_page(args@, breadth as nat);
            }
            let p: Vec<u8> = profile(pix, vertical, lo as u32, hi as u32);
            Ok(profile_json(axis, page, length, threshold, &p))
        },
        Err(e) => Err(e),
    }
}

/// A profile has a value for each point along the axis, and each is the mean luminance
/// across the range, rounded down.
pub proof fn law_profile_holds_means(pix: Pixmap, vertical: bool, lo: int, hi: int, along: int)
    requires
        lo < hi,
        0 <= along < length_spec(pix, vertical),
    ensures
        profile_spec(pix, vertical, lo, hi).len() == length_spec(pix, vertical),
        ({
            let mean = profile_spec(pix, vertical, lo, hi)[along] as int;
            let sum = lum_sum(pix, vertical, along, lo, hi);
            mean * (hi - lo) <= sum < (mean + 1) * (hi - lo)
        }),
{
    let sum = lum_sum(pix, vertical, along, lo, hi) as int;
    let span = hi - lo;
    lemma_lum_sum_bound(pix, vertical, along, lo, hi);
    assert(0 <= sum / span <= 255 && (sum / span) * span <= sum < (sum / span + 1) * span)
        by (nonlinear_arith)
        requires
            0 <= sum <= 255 * span,
            span > 0,
    ;
}

/// The bounds of the content enclose every point below the threshold, and are tight:
/// there is one at the start and one just before the end. Both are missing where no
/// point is below the threshold.
pub proof fn law_content_bounds_are_tight(p: Seq<u8>, threshold: u64)
    ensures
        first_below(p, threshold) is None <==> end_below(p, threshold) is None,
        first_below(p, threshold) is None <==> (forall|i: int|
            0 <= i < p.len() ==> p[i] >= threshold),
        match (first_below(p, threshold), end_below(p, threshold)) {
            (Some(start), Some(end)) => {
                &&& start < end <= p.len()
                &&& p[start as int] < threshold
                &&& p[end - 1] < threshold
                &&& forall|i: int|
                    0 <= i < p.len() && (i < start || i >= end) ==> p[i] >= threshold
            },
            _ => true,
        },
    decreases p.len(),
{
    if p.len() > 0 {
        let q = p.drop_last();
        law_content_bounds_are_tight(q, threshold);
        assert(forall|i: int| 0 <= i < q.len() ==> q[i] == p[i]);
        assert(p[p.len() - 1] == p.last());
        if first_below(p, threshold) is None {
            assert forall|i: int| 0 <= i < p.len() implies p[i] >= threshold by {
                if i < q.len() {
                    assert(q[i] >= threshold);
                }
            }
        } else {
            let start = first_below(p, threshold).unwrap() as int;
            assert(p[start] < threshold);
        }
        assert forall|i: int|
            0 <= i < p.len() && first_below(p, threshold) is Some && (i < first_below(
                p,
                threshold,
            ).unwrap() || i >= end_below(p, threshold).unwrap()) implies p[i] >= threshold by {
            if i < q.len() {
                assert(q[i] == p[i]);
            }
        }
    }
}

/// A greater threshold only widens the bounds of the content, and below zero there is
/// none.
pub proof fn law_greater_threshold_widens_the_bounds(p: Seq<u8>, low: u64, high: u64)
    requires
        low <= high,
    ensures
        first_below(p, low) matches Some(start) ==> first_below(p, high) matches Some(s) && s
            <= start,
        end_below(p, low) matches Some(end) ==> end_below(p, high) matches Some(e) && end <= e,
        first_below(p, 0) is None,
        end_below(p, 0) is None,
    decreases p.len(),
{
    law_content_bounds_are_tight(p, low);
    law_content_bounds_are_tight(p, high);
    law_content_bounds_are_tight(p, 0);
    if p.len() > 0 {
        law_greater_threshold_widens_the_bounds(p.drop_last(), low, high);
    }
    if let Some(start) = first_below(p, low) {
        assert(p[start as int] < low);
    }
}

/// The threshold changes neither the profile nor its length: a greater one only widens
/// the bounds that are reported.
pub proof fn law_threshold_keeps_the_profile(
    page: i32,
    axis: Seq<char>,
    a: Tree,
    b: Tree,
    pix: Pixmap,
)
    requires
        agree_but(a, b, "threshold"@),
        threshold_spec(a) <= threshold_spec(b),
    ensures
        match (
            tool_intensity_profile_spec(page, axis, a, pix),
            tool_intensity_profile_spec(page, axis, b, pix),
        ) {
            (Ok(x), Ok(y)) => exists|p: Seq<u8>, length: u32|
                {
                    &&& x == #[trigger] profile_tree(axis, page, length, threshold_spec(a), p)
                    &&& y == profile_tree(axis, page, length, threshold_spec(b), p)
                    &&& first_below(p, threshold_spec(a)) matches Some(start) ==> first_below(
                        p,
                        threshold_spec(b),
                    ) matches Some(s) && s <= start
                    &&& end_below(p, threshold_spec(a)) matches Some(end) ==> end_below(
                        p,
                        threshold_spec(b),
                    ) matches Some(e) && end <= e
                },
            (Err(x), Err(y)) => x == y,
            _ => false,
        },
{
    reveal_strlit("threshold");
    reveal_strlit("offset");
    reveal_strlit("band_width");
    assert("threshold"@.len() == 9 && "offset"@.len() == 6 && "band_width"@.len() == 10);
    assert(a.get("offset"@) == b.get("offset"@));
    assert(a.get("band_width"@) == b.get("band_width"@));
    if pix.channels >= 3 {
        if let Some(vertical) = direction_spec(axis) {
            let dim = breadth_spec(pix, vertical) as nat;
            let (lo, hi) = perp_range_spec(a, dim);
            assert(perp_range_spec(b, dim) == (lo, hi));
            let p = profile_spec(pix, vertical, lo as int, hi as int);
            let length = length_spec(pix, vertical);
            law_greater_threshold_widens_the_bounds(p, threshold_spec(a), threshold_spec(b));
            assert(tool_intensity_profile_spec(page, axis, a, pix)->Ok_0 == profile_tree(
                axis,
                page,
                length,
                threshold_spec(a),
                p,
            ));
        }
    }
}

/// Half of ten is five, in double precision too.
proof fn lemma_half_of_ten()
    ensures
        Double::from_int(10).whole(1) == 5,
{
    let k = DOUBLE_SCALE as nat;
    let n = 10 * pow2(k);
    lemma2_to64();
    lemma2_to64_rest();
    lemma_mul_basics(n as int);
    lemma_nearest_exact(53, 10, k, 1);
    lemma_bit_len_unique(10, 4);
    lemma_bit_len_scale(10, k);
    assert(n / 1 == n);
    lemma_nearest_digits(53, n, 1);
    assert(excess(53, n, 1) == 1025);
    assert(nearest(53, n, 1) == 1025 * pow2(52) + half_even(n, 1 * pow2(1025)));
    assert(nearest(53, n, 1) < DOUBLE_INF);
    assert(Double::from_int(10).units() == n);
    lemma_pow2_unfold(k + 1);
    lemma_pow2_pos(k + 1);
    assert(n == 5 * pow2(k + 1));
    lemma_div_by_multiple(5, pow2(k + 1) as int);
}

/// A band without a width is as wide as one of ten points. Without an offset the range is
/// whole, whatever width the arguments give.
pub proof fn law_band_is_ten_points_wide_by_default(a: Tree, b: Tree, dim: nat)
    requires
        agree_but(a, b, "band_width"@),
        a.get("band_width"@) is None,
    ensures
        b.double_at("band_width"@) == Some(Double::from_int(10)) ==> perp_range_spec(a, dim)
            == perp_range_spec(b, dim),
        a.double_at("offset"@) is None ==> perp_range_spec(a, dim) == (0nat, dim)
            && perp_range_spec(b, dim) == (0nat, dim),
{
    lemma_half_of_ten();
    reveal_strlit("offset");
    reveal_strlit("band_width");
    assert("offset"@.len() == 6 && "band_width"@.len() == 10);
    assert(a.get("offset"@) == b.get("offset"@));
}

} // verus!
