//! A profile is the mean luminance along an axis, and its bounds are where it is dark.
use crate::call::{follows, need_spec, Answer, CallView, NeedView, TurnView};
use crate::document::Pixmap;
use crate::float::{Double, DOUBLE_SCALE};
use crate::json::{find, int_tree, Number, Tree};
use crate::laws::calls::{calls, ends_with_error, lemma_failed, lemma_opened, opens_to};
use crate::laws::numbers::law_integers_are_exact;
use crate::laws::values::{
    has_members, is_number, is_text, law_integers_are_shown, law_page_is_the_number_given,
    some_number,
};
use crate::profile::{
    breadth_spec, bytes_tree, end_below, first_below, law_content_bounds_are_tight,
    law_profile_holds_means, length_spec, lum_sum, perp_range_spec, place_tree, profile_spec,
    profile_tree, threshold_spec, tool_intensity_profile_spec,
};
use crate::text::decimal_spec;
use crate::tools::Tool;
use vstd::arithmetic::div_mod::*;
use vstd::arithmetic::power2::*;
use vstd::prelude::*;

verus! {

/// Whether an entry of a profile is below a threshold.
pub open spec fn dark(p: Seq<Tree>, i: int, t: int) -> bool {
    p[i] matches Tree::Number(Number::PosInt(v)) && v < t
}

/// Whether a member is the first place where a profile is below a threshold, or null where
/// there is none.
pub open spec fn marks_start(member: Option<Tree>, p: Seq<Tree>, t: int) -> bool {
    if forall|i: int| 0 <= i < p.len() ==> !#[trigger] dark(p, i, t) {
        member == Some(Tree::Null)
    } else {
        exists|s: int|
            {
                &&& 0 <= s < p.len()
                &&& is_number(member, s)
                &&& #[trigger] dark(p, s, t)
                &&& forall|i: int| 0 <= i < s ==> !#[trigger] dark(p, i, t)
            }
    }
}

/// Whether a member is the place after the last one where a profile is below a threshold,
/// or null where there is none.
pub open spec fn marks_end(member: Option<Tree>, p: Seq<Tree>, t: int) -> bool {
    if forall|i: int| 0 <= i < p.len() ==> !#[trigger] dark(p, i, t) {
        member == Some(Tree::Null)
    } else {
        exists|s: int|
            {
                &&& 0 <= s < p.len()
                &&& is_number(member, s + 1)
                &&& #[trigger] dark(p, s, t)
                &&& forall|i: int| s < i < p.len() ==> !#[trigger] dark(p, i, t)
            }
    }
}

/// What is said of a profile has the bounds of the profile that is said.
proof fn lemma_bounds_of_what_is_said(
    axis: Seq<char>,
    page: i32,
    length: u32,
    threshold: u64,
    p: Seq<u8>,
)
    requires
        p.len() == length,
    ensures
        ({
            let value = profile_tree(axis, page, length, threshold, p);
            &&& is_text(value.get("axis"@), axis)
            &&& is_number(value.get("page"@), page as int)
            &&& is_number(value.get("length"@), length as int)
            &&& is_number(value.get("threshold"@), threshold as int)
            &&& value.get("profile"@) matches Some(Tree::Array(entries)) && {
                &&& entries.len() == length
                &&& forall|i: int|
                    0 <= i < length ==> is_number(Some(#[trigger] entries[i]), p[i] as int)
                &&& marks_start(value.get("content_start"@), entries, threshold as int)
                &&& marks_end(value.get("content_end"@), entries, threshold as int)
            }
        }),
{
    let value = profile_tree(axis, page, length, threshold, p);
    let entries = bytes_tree(p)->Array_0;
    lemma_members_of_what_is_said(axis, page, length, threshold, p);
    law_integers_are_shown(page as int);
    law_integers_are_shown(length as int);
    law_integers_are_shown(threshold as int);
    law_content_bounds_are_tight(p, threshold);
    let t = threshold as int;
    assert forall|i: int| 0 <= i < p.len() implies is_number(
        Some(#[trigger] entries[i]),
        p[i] as int,
    ) && dark(entries, i, t) == (p[i] < t) by {
        law_integers_are_shown(p[i] as int);
    }
    if forall|i: int| 0 <= i < entries.len() ==> !#[trigger] dark(entries, i, t) {
        assert forall|i: int| 0 <= i < p.len() implies p[i] >= threshold by {
            assert(!dark(entries, i, t));
            assert(is_number(Some(entries[i]), p[i] as int));
        }
    } else {
        let k = choose|k: int| 0 <= k < entries.len() && #[trigger] dark(entries, k, t);
        assert(is_number(Some(entries[k]), p[k] as int));
        assert(p[k] < threshold);
        assert(first_below(p, threshold) is Some);
        let start = first_below(p, threshold).unwrap() as int;
        let end = end_below(p, threshold).unwrap() as int;
        law_integers_are_shown(start);
        law_integers_are_shown(end);
        assert(is_number(Some(entries[start]), p[start] as int));
        assert(is_number(Some(entries[end - 1]), p[end - 1] as int));
        assert(dark(entries, start, t));
        assert(dark(entries, end - 1, t));
        assert forall|i: int| 0 <= i < start implies !#[trigger] dark(entries, i, t) by {
            assert(p[i] >= threshold);
            assert(is_number(Some(entries[i]), p[i] as int));
        }
        assert forall|i: int| end - 1 < i < entries.len() implies !#[trigger] dark(
            entries,
            i,
            t,
        ) by {
            assert(p[i] >= threshold);
            assert(is_number(Some(entries[i]), p[i] as int));
        }
    }
}

proof fn lemma_members_of_what_is_said(
    axis: Seq<char>,
    page: i32,
    length: u32,
    threshold: u64,
    p: Seq<u8>,
)
    ensures
        ({
            let value = profile_tree(axis, page, length, threshold, p);
            &&& is_text(value.get("axis"@), axis)
            &&& value.get("page"@) == Some(int_tree(page as int))
            &&& value.get("length"@) == Some(int_tree(length as int))
            &&& value.get("threshold"@) == Some(int_tree(threshold as int))
            &&& value.get("content_start"@) == Some(
                place_tree(first_below(p, threshold)),
            )
            &&& value.get("content_end"@) == Some(
                place_tree(end_below(p, threshold)),
            )
            &&& value.get("profile"@) == Some(bytes_tree(p))
        }),
{
    reveal_strlit("axis");
    reveal_strlit("page");
    reveal_strlit("length");
    reveal_strlit("threshold");
    reveal_strlit("content_start");
    reveal_strlit("content_end");
    reveal_strlit("profile");
    assert("axis"@.len() == 4 && "page"@.len() == 4 && "length"@.len() == 6 && "threshold"@.len()
        == 9);
    assert("content_start"@.len() == 13 && "content_end"@.len() == 11 && "profile"@.len() == 7);
    assert("axis"@[0] == 'a' && "page"@[0] == 'p');
    reveal_with_fuel(find, 8);
}

/// The luminance of a pixel: 299 parts of its red, 587 of its green and 114 of its blue in
/// a thousand, rounded down.
pub open spec fn grey(pix: Pixmap, col: int, row: int) -> int {
    let at = row * pix.stride + col * pix.channels;
    (299 * pix.samples@[at] + 587 * pix.samples@[at + 1] + 114 * pix.samples@[at + 2]) / 1000
}

/// The sum of the values of `f` from `lo` up to `hi`.
pub open spec fn total(f: spec_fn(int) -> int, lo: int, hi: int) -> int
    decreases hi - lo,
{
    if hi <= lo {
        0
    } else {
        total(f, lo, hi - 1) + f(hi - 1)
    }
}

/// The luminances across the vertical axis at a row are those of its columns, and across
/// the horizontal axis at a column those of its rows.
proof fn lemma_sum_is_total(pix: Pixmap, vertical: bool, along: int, lo: int, hi: int)
    ensures
        lum_sum(pix, vertical, along, lo, hi) == total(line_at(pix, vertical, along), lo, hi),
    decreases hi - lo,
{
    if lo < hi {
        lemma_sum_is_total(pix, vertical, along, lo, hi - 1);
    }
}

/// The luminances at a place on an axis: those of a row where the axis is vertical, and
/// those of a column where it is not.
pub open spec fn line_at(pix: Pixmap, vertical: bool, along: int) -> spec_fn(int) -> int {
    if vertical {
        |col: int| grey(pix, col, along)
    } else {
        |row: int| grey(pix, along, row)
    }
}

/// Whether `v` is the mean of the values of `f` from `lo` up to `hi`, rounded down.
pub open spec fn is_mean(v: int, f: spec_fn(int) -> int, lo: int, hi: int) -> bool {
    v * (hi - lo) <= total(f, lo, hi) < (v + 1) * (hi - lo)
}

/// Whether an entry is the mean of the values of `f` from `lo` up to `hi`, or zero where
/// there are none.
pub open spec fn holds_mean(entry: Tree, f: spec_fn(int) -> int, lo: int, hi: int) -> bool {
    entry matches Tree::Number(Number::PosInt(v)) && if lo < hi {
        is_mean(v as int, f, lo, hi)
    } else {
        v == 0
    }
}

/// Whether `t` is the threshold of the arguments: the unsigned integer that they give, or
/// 250 where they give none.
pub open spec fn is_threshold(args: Tree, t: int) -> bool {
    match args.get("threshold"@) {
        Some(Tree::Number(Number::PosInt(k))) => t == k,
        _ => t == 250,
    }
}

/// Whether `value` shows the profile of a page along an axis, with the threshold that the
/// arguments give and the bounds of what is below it: there is an entry for each row of
/// the page where the axis is vertical, and for each column where it is not, and it is
/// the mean of the luminances there, from `lo` up to `hi`.
pub open spec fn shows_profile(
    value: Tree,
    args: Tree,
    axis: Seq<char>,
    page: int,
    pix: Pixmap,
    vertical: bool,
    lo: int,
    hi: int,
) -> bool {
    let length = if vertical {
        pix.height as int
    } else {
        pix.width as int
    };
    &&& has_members(value, 7)
    &&& is_text(value.get("axis"@), axis)
    &&& is_number(value.get("page"@), page)
    &&& is_number(value.get("length"@), length)
    &&& exists|t: int| #[trigger] is_threshold(args, t) && is_number(value.get("threshold"@), t)
    &&& value.get("profile"@) matches Some(Tree::Array(p)) && {
        &&& p.len() == length
        &&& forall|t: int| #[trigger]
            is_threshold(args, t) ==> marks_start(value.get("content_start"@), p, t) && marks_end(
                value.get("content_end"@),
                p,
                t,
            )
        &&& forall|i: int|
            0 <= i < length ==> holds_mean(#[trigger] p[i], line_at(pix, vertical, i), lo, hi)
    }
}

proof fn lemma_shows_profile(page: i32, axis: Seq<char>, args: Tree, pix: Pixmap, vertical: bool)
    requires
        pix.channels >= 3,
        axis == (if vertical {
            "vertical"@
        } else {
            "horizontal"@
        }),
    ensures
        ({
            let (lo, hi) = perp_range_spec(
                args,
                if vertical {
                    pix.width as nat
                } else {
                    pix.height as nat
                },
            );
            tool_intensity_profile_spec(page, axis, args, pix) matches Ok(value) && shows_profile(
                value,
                args,
                axis,
                page as int,
                pix,
                vertical,
                lo as int,
                hi as int,
            )
        }),
{
    reveal_strlit("vertical");
    reveal_strlit("horizontal");
    assert("vertical"@.len() == 8 && "horizontal"@.len() == 10);
    let dim = breadth_spec(pix, vertical) as nat;
    let (lo, hi) = perp_range_spec(args, dim);
    let length = length_spec(pix, vertical);
    let threshold = threshold_spec(args);
    let p = profile_spec(pix, vertical, lo as int, hi as int);
    let value = profile_tree(axis, page, length, threshold, p);
    lemma_bounds_of_what_is_said(axis, page, length, threshold, p);
    assert(is_threshold(args, threshold as int));
    let entries = value.get("profile"@)->0->Array_0;
    assert forall|i: int| 0 <= i < length implies holds_mean(
        #[trigger] entries[i],
        line_at(pix, vertical, i),
        lo as int,
        hi as int,
    ) by {
        assert(is_number(Some(entries[i]), p[i] as int));
        if lo < hi {
            law_profile_holds_means(pix, vertical, lo as int, hi as int, i);
            lemma_sum_is_total(pix, vertical, i, lo as int, hi as int);
        }
    }
    assert(tool_intensity_profile_spec(page, axis, args, pix) == Ok::<Tree, Seq<char>>(value));
    assert forall|t: int| #[trigger] is_threshold(args, t) implies marks_start(
        value.get("content_start"@),
        entries,
        t,
    ) && marks_end(value.get("content_end"@), entries, t) by {
        assert(t == threshold);
    }
    assert(value.get("profile"@) == Some(Tree::Array(entries)));
    assert(shows_profile(value, args, axis, page as int, pix, vertical, lo as int, hi as int));
}

/// `intensity_profile` along the vertical axis shows for every row of the page the mean
/// luminance of its columns in the range across, with the threshold that is given and the
/// bounds of what is below it.
pub proof fn law_vertical_profile_is_measured_row_by_row(
    params: Tree,
    args: Tree,
    path: Seq<char>,
    n: int,
    call: CallView,
    pix: Pixmap,
    turn: TurnView,
)
    requires
        calls(params, "intensity_profile"@, args, path),
        is_number(args.get("page"@), n),
        i32::MIN <= n <= i32::MAX,
        is_text(args.get("axis"@), "vertical"@),
        opens_to(params, TurnView::Ask(call)),
        follows(call, Answer::Pixmap(Ok(pix)), turn),
        pix.channels >= 3,
    ensures
        ({
            let (lo, hi) = perp_range_spec(args, pix.width as nat);
            turn matches TurnView::Ask(next) && need_spec(next) matches NeedView::PrettyText {
                value,
            } && shows_profile(
                value,
                args,
                "vertical"@,
                n,
                pix,
                true,
                lo as int,
                hi as int,
            )
        }),
{
    lemma_opened(params, args, path, Tool::IntensityProfile, TurnView::Ask(call));
    law_page_is_the_number_given(args, n);
    lemma_shows_profile(n as i32, "vertical"@, args, pix, true);
}

/// `intensity_profile` along the horizontal axis shows for every column of the page the
/// mean luminance of its rows in the range across, with the threshold that is given and the
/// bounds of what is below it.
pub proof fn law_horizontal_profile_is_measured_column_by_column(
    params: Tree,
    args: Tree,
    path: Seq<char>,
    n: int,
    call: CallView,
    pix: Pixmap,
    turn: TurnView,
)
    requires
        calls(params, "intensity_profile"@, args, path),
        is_number(args.get("page"@), n),
        i32::MIN <= n <= i32::MAX,
        is_text(args.get("axis"@), "horizontal"@),
        opens_to(params, TurnView::Ask(call)),
        follows(call, Answer::Pixmap(Ok(pix)), turn),
        pix.channels >= 3,
    ensures
        ({
            let (lo, hi) = perp_range_spec(args, pix.height as nat);
            turn matches TurnView::Ask(next) && need_spec(next) matches NeedView::PrettyText {
                value,
            } && shows_profile(
                value,
                args,
                "horizontal"@,
                n,
                pix,
                false,
                lo as int,
                hi as int,
            )
        }),
{
    lemma_opened(params, args, path, Tool::IntensityProfile, TurnView::Ask(call));
    law_page_is_the_number_given(args, n);
    lemma_shows_profile(n as i32, "horizontal"@, args, pix, false);
}

/// A pixmap without red, green and blue, or an axis that is neither vertical nor
/// horizontal, cannot be measured, and the message says what is there instead.
pub proof fn law_what_cannot_be_measured_is_refused(
    params: Tree,
    args: Tree,
    path: Seq<char>,
    n: int,
    axis: Seq<char>,
    call: CallView,
    pix: Pixmap,
    turn: TurnView,
)
    requires
        calls(params, "intensity_profile"@, args, path),
        is_number(args.get("page"@), n),
        i32::MIN <= n <= i32::MAX,
        is_text(args.get("axis"@), axis),
        opens_to(params, TurnView::Ask(call)),
        follows(call, Answer::Pixmap(Ok(pix)), turn),
    ensures
        pix.channels < 3 ==> ends_with_error(
            turn,
            "Unexpected pixel format: "@ + decimal_spec(pix.channels as nat)
                + " channels (expected >= 3)"@,
        ),
        pix.channels >= 3 && axis != "vertical"@ && axis != "horizontal"@ ==> ends_with_error(
            turn,
            "axis must be \"vertical\" or \"horizontal\", got \""@ + axis + "\""@,
        ),
{
    lemma_opened(params, args, path, Tool::IntensityProfile, TurnView::Ask(call));
    law_page_is_the_number_given(args, n);
    lemma_failed(
        "Unexpected pixel format: "@ + decimal_spec(pix.channels as nat)
            + " channels (expected >= 3)"@,
    );
    lemma_failed("axis must be \"vertical\" or \"horizontal\", got \""@ + axis + "\""@);
}

/// The whole part of the number of an integer, or of half of it, is that of the integer.
proof fn lemma_whole_of_integer(n: int)
    requires
        0 <= n < 0x20_0000_0000_0000,
    ensures
        n <= usize::MAX ==> Double::from_int(n).whole(0) == n,
        n > usize::MAX ==> Double::from_int(n).whole(0) == usize::MAX,
        n / 2 <= usize::MAX ==> Double::from_int(n).whole(1) == n / 2,
        n / 2 > usize::MAX ==> Double::from_int(n).whole(1) == usize::MAX,
{
    let k = DOUBLE_SCALE as nat;
    let one = pow2(k) as int;
    law_integers_are_exact(n);
    lemma_pow2_pos(k);
    lemma_pow2_unfold(k + 1);
    lemma_div_by_multiple(n, one);
    lemma_div_denominator(n * one, one, 2);
    assert(one * 2 == pow2(k + 1));
}

/// Without a number at `offset` the range across is whole.
pub proof fn law_range_is_whole_without_an_offset(args: Tree, dim: nat)
    requires
        !some_number(args.get("offset"@)),
    ensures
        perp_range_spec(args, dim) == (0nat, dim),
{
}

/// The point of a page at an offset in whole points: an offset below zero is at the first
/// point, and one beyond the page at the last.
pub open spec fn point_at(n: int, dim: int) -> int {
    if n < 0 {
        0
    } else if n < dim {
        n
    } else {
        dim - 1
    }
}

/// Half of a width in whole points; a width below zero is none.
pub open spec fn half_width(band: int) -> int {
    if band < 0 {
        0
    } else {
        band / 2
    }
}

/// With an offset the range across is made of the points of the page that are no further
/// from it than half the width of the band; the band is ten points wide where no width is
/// given.
pub proof fn law_range_is_a_band_round_the_offset(args: Tree, dim: nat, n: int, band: int, c: int)
    requires
        is_number(args.get("offset"@), n),
        -0x20_0000_0000_0000 < n < 0x20_0000_0000_0000,
        is_number(args.get("band_width"@), band) || (!some_number(
            args.get("band_width"@),
        ) && band == 10),
        -0x20_0000_0000_0000 < band < 0x20_0000_0000_0000,
        0 <= c < dim <= u32::MAX,
    ensures
        ({
            let (lo, hi) = perp_range_spec(args, dim);
            let center = point_at(n, dim as int);
            lo <= c < hi <==> center - half_width(band) <= c <= center + half_width(band)
        }),
{
    law_integers_are_exact(n);
    law_integers_are_exact(band);
    if n >= 0 {
        lemma_whole_of_integer(n);
    }
    if band >= 0 {
        lemma_whole_of_integer(band);
    }
}

/// The whole part of a number that is not negative; zero for a negative one.
pub open spec fn points_of(d: Double) -> int {
    if d.negative() {
        0
    } else {
        d.units() as int / pow2(DOUBLE_SCALE as nat) as int
    }
}

/// An offset with a fraction is taken for its whole part.
pub proof fn law_offset_is_of_whole_points(args: Tree, dim: nat, offset: Double, band: int, c: int)
    requires
        args.get("offset"@) == Some(Tree::Number(Number::Float(offset))),
        offset.finite(),
        is_number(args.get("band_width"@), band) || (!some_number(
            args.get("band_width"@),
        ) && band == 10),
        0 <= band < 0x20_0000_0000_0000,
        0 <= c < dim <= u32::MAX,
    ensures
        ({
            let (lo, hi) = perp_range_spec(args, dim);
            let center = point_at(points_of(offset), dim as int);
            lo <= c < hi <==> center - band / 2 <= c <= center + band / 2
        }),
{
    lemma_whole_of_integer(band);
    lemma_pow2_pos(DOUBLE_SCALE as nat);
    lemma_div_pos_is_pos(offset.units() as int, pow2(DOUBLE_SCALE as nat) as int);
}

/// Half of a width with a fraction is taken for its whole part.
pub proof fn law_half_a_width_is_of_whole_points(
    args: Tree,
    dim: nat,
    n: int,
    band: Double,
    c: int,
)
    requires
        is_number(args.get("offset"@), n),
        0 <= n < 0x20_0000_0000_0000,
        args.get("band_width"@) == Some(Tree::Number(Number::Float(band))),
        band.finite(),
        0 <= c < dim <= u32::MAX,
    ensures
        ({
            let (lo, hi) = perp_range_spec(args, dim);
            let center = point_at(n, dim as int);
            let half = points_of(band) / 2;
            lo <= c < hi <==> center - half <= c <= center + half
        }),
{
    let k = DOUBLE_SCALE as nat;
    let one = pow2(k) as int;
    lemma_whole_of_integer(n);
    lemma_pow2_pos(k);
    lemma_pow2_unfold(k + 1);
    lemma_div_pos_is_pos(band.units() as int, one);
    lemma_div_denominator(band.units() as int, one, 2);
    assert(one * 2 == pow2(k + 1));
}

} // verus!
