//! Tool calls ask for what their arguments name, and answer with what they are given.
use crate::args::page_num_spec;
use crate::call::{
    answers, begin_spec, failed, follows, handle_tool_call_spec, need_spec, refusal, Answer,
    CallView, NeedView, TurnView,
};
use crate::document::DocumentInfo;
use crate::float::{Double, Single, DOUBLE_SCALE};
use crate::json::{Number, Tree};
use crate::laws::values::{
    is_number, is_text, law_answers_hold_what_they_are_made_of, law_page_is_the_number_given,
    says_error, says_text, some_integer, some_number, some_text,
};
use crate::render::render_scale_spec;
use crate::rounding::lemma_nearest_monotone;
use crate::text::integer_text_spec;
use crate::tools::{law_names_are_distinct, tool_name, Tool};
use vstd::arithmetic::power2::*;
use vstd::prelude::*;

verus! {

/// Whether the parameters call a tool by its name, with arguments that have a path.
pub open spec fn calls(params: Tree, name: Seq<char>, args: Tree, path: Seq<char>) -> bool {
    &&& is_text(params.get("name"@), name)
    &&& params.get("arguments"@) == Some(args)
    &&& is_text(args.get("path"@), path)
}

/// Whether `turn` is what a call comes to once its document is open.
pub open spec fn opens_to(params: Tree, turn: TurnView) -> bool {
    handle_tool_call_spec(params) matches TurnView::Ask(call) && follows(
        call,
        Answer::Document(Ok(())),
        turn,
    )
}

/// Whether a turn asks for `need`.
pub open spec fn asks(turn: TurnView, need: NeedView) -> bool {
    turn matches TurnView::Ask(call) && need_spec(call) == need
}

/// Whether a turn ends the call with an error that has the message `e`.
pub open spec fn ends_with_error(turn: TurnView, e: Seq<char>) -> bool {
    turn matches TurnView::Reply(v) && says_error(v, e)
}

/// Whether a turn ends the call with the text `s`.
pub open spec fn ends_with_text(turn: TurnView, s: Seq<char>) -> bool {
    turn matches TurnView::Reply(v) && says_text(v, s)
}

/// An error ends a call with its message.
pub proof fn lemma_failed(e: Seq<char>)
    ensures
        ends_with_error(failed(e), e),
{
    law_answers_hold_what_they_are_made_of(e, seq![], seq![]);
}

/// What a call of a tool comes to once its document is open.
pub proof fn lemma_opened(
    params: Tree,
    args: Tree,
    path: Seq<char>,
    tool: Tool,
    turn: TurnView,
)
    requires
        calls(params, tool_name(tool), args, path),
        opens_to(params, turn),
    ensures
        turn == begin_spec(tool, args),
{
    law_names_are_distinct(tool, tool_name(tool));
}

/// A call of a tool first asks for the document at its path, whatever the tool.
pub proof fn law_document_is_the_one_at_the_path(
    params: Tree,
    name: Seq<char>,
    args: Tree,
    path: Seq<char>,
)
    requires
        calls(params, name, args, path),
        name == "get_info"@ || name == "get_page_text"@ || name == "search"@ || name == "render"@
            || name == "get_text_blocks"@ || name == "extract_region_text"@ || name
            == "get_outline"@ || name == "get_page_links"@ || name == "intensity_profile"@,
    ensures
        asks(handle_tool_call_spec(params), NeedView::Document { path }),
{
    law_names_are_distinct(Tool::GetInfo, name);
    law_names_are_distinct(Tool::GetPageText, name);
    law_names_are_distinct(Tool::Search, name);
    law_names_are_distinct(Tool::Render, name);
    law_names_are_distinct(Tool::GetTextBlocks, name);
    law_names_are_distinct(Tool::ExtractRegionText, name);
    law_names_are_distinct(Tool::GetOutline, name);
    law_names_are_distinct(Tool::GetPageLinks, name);
    law_names_are_distinct(Tool::IntensityProfile, name);
}

/// A call of a tool that is not known, without a path, or without a name is refused, and
/// the message says which.
pub proof fn law_calls_that_cannot_be_are_refused(params: Tree, name: Seq<char>, args: Tree)
    requires
        params.get("arguments"@) == Some(args),
    ensures
        !some_text(params.get("name"@)) ==> ends_with_error(
            handle_tool_call_spec(params),
            "Missing tool name"@,
        ),
        is_text(params.get("name"@), name) && !some_text(args.get("path"@)) ==> ends_with_error(
            handle_tool_call_spec(params),
            "Missing required parameter: "@ + "path"@,
        ),
        is_text(params.get("name"@), name) && some_text(args.get("path"@)) && name != "get_info"@
            && name != "get_page_text"@ && name != "search"@ && name != "render"@ && name
            != "get_text_blocks"@ && name != "extract_region_text"@
            && name != "get_outline"@ && name != "get_page_links"@ && name
            != "intensity_profile"@ ==> ends_with_error(
            handle_tool_call_spec(params),
            "Unknown tool: "@ + name,
        ),
{
    lemma_failed("Missing tool name"@);
    lemma_failed("Missing required parameter: "@ + "path"@);
    lemma_failed("Unknown tool: "@ + name);
}

/// A call without arguments has no path.
pub proof fn law_call_without_arguments_is_refused(params: Tree, name: Seq<char>)
    requires
        params.get("arguments"@) is None,
        is_text(params.get("name"@), name),
    ensures
        ends_with_error(handle_tool_call_spec(params), "Missing required parameter: "@ + "path"@),
{
    lemma_failed("Missing required parameter: "@ + "path"@);
}

/// `get_page_text` asks for the text of the page that is named.
pub proof fn law_get_page_text_is_of_the_page_named(
    params: Tree,
    args: Tree,
    path: Seq<char>,
    n: int,
    turn: TurnView,
)
    requires
        calls(params, "get_page_text"@, args, path),
        is_number(args.get("page"@), n),
        i32::MIN <= n <= i32::MAX,
        opens_to(params, turn),
    ensures
        asks(turn, NeedView::PageText { page: n as i32 }),
{
    lemma_opened(params, args, path, Tool::GetPageText, turn);
    law_page_is_the_number_given(args, n);
}

/// `get_text_blocks` asks for the blocks of the page that is named.
pub proof fn law_get_text_blocks_is_of_the_page_named(
    params: Tree,
    args: Tree,
    path: Seq<char>,
    n: int,
    turn: TurnView,
)
    requires
        calls(params, "get_text_blocks"@, args, path),
        is_number(args.get("page"@), n),
        i32::MIN <= n <= i32::MAX,
        opens_to(params, turn),
    ensures
        asks(turn, NeedView::TextPage { page: n as i32 }),
{
    lemma_opened(params, args, path, Tool::GetTextBlocks, turn);
    law_page_is_the_number_given(args, n);
}

/// `get_page_links` asks for the links of the page that is named.
pub proof fn law_get_page_links_is_of_the_page_named(
    params: Tree,
    args: Tree,
    path: Seq<char>,
    n: int,
    turn: TurnView,
)
    requires
        calls(params, "get_page_links"@, args, path),
        is_number(args.get("page"@), n),
        i32::MIN <= n <= i32::MAX,
        opens_to(params, turn),
    ensures
        asks(turn, NeedView::Links { page: n as i32 }),
{
    lemma_opened(params, args, path, Tool::GetPageLinks, turn);
    law_page_is_the_number_given(args, n);
}

/// `render` asks for a pixmap of the page that is named, at the scale of the resolution.
pub proof fn law_render_is_of_the_page_named(
    params: Tree,
    args: Tree,
    path: Seq<char>,
    n: int,
    turn: TurnView,
)
    requires
        calls(params, "render"@, args, path),
        is_number(args.get("page"@), n),
        i32::MIN <= n <= i32::MAX,
        opens_to(params, turn),
    ensures
        asks(turn, NeedView::Pixmap { page: n as i32, scale: render_scale_spec(args) }),
{
    lemma_opened(params, args, path, Tool::Render, turn);
    law_page_is_the_number_given(args, n);
}

/// `intensity_profile` asks for a pixmap of the page that is named, at one pixel to the
/// point.
pub proof fn law_intensity_profile_is_of_the_page_named(
    params: Tree,
    args: Tree,
    path: Seq<char>,
    n: int,
    axis: Seq<char>,
    turn: TurnView,
)
    requires
        calls(params, "intensity_profile"@, args, path),
        is_number(args.get("page"@), n),
        i32::MIN <= n <= i32::MAX,
        is_text(args.get("axis"@), axis),
        opens_to(params, turn),
    ensures
        asks(turn, NeedView::Pixmap { page: n as i32, scale: (Single { bits: 0x3f80_0000 }) }),
{
    lemma_opened(params, args, path, Tool::IntensityProfile, turn);
    law_page_is_the_number_given(args, n);
}

/// `extract_region_text` asks for the blocks of the page that is named.
pub proof fn law_extract_region_text_is_of_the_page_named(
    params: Tree,
    args: Tree,
    path: Seq<char>,
    n: int,
    turn: TurnView,
)
    requires
        calls(params, "extract_region_text"@, args, path),
        is_number(args.get("page"@), n),
        i32::MIN <= n <= i32::MAX,
        some_number(args.get("x0"@)) && some_number(args.get("y0"@)),
        some_number(args.get("x1"@)) && some_number(args.get("y1"@)),
        opens_to(params, turn),
    ensures
        asks(turn, NeedView::TextPage { page: n as i32 }),
{
    lemma_opened(params, args, path, Tool::ExtractRegionText, turn);
    law_page_is_the_number_given(args, n);
}

/// `get_info` and `get_outline` ask for the facts and the table of contents.
pub proof fn law_tools_of_the_whole_document(
    params: Tree,
    args: Tree,
    path: Seq<char>,
    turn: TurnView,
)
    requires
        opens_to(params, turn),
    ensures
        calls(params, "get_info"@, args, path) ==> asks(turn, NeedView::Info),
        calls(params, "get_outline"@, args, path) ==> asks(turn, NeedView::Outline),
{
    if calls(params, "get_info"@, args, path) {
        lemma_opened(params, args, path, Tool::GetInfo, turn);
    }
    if calls(params, "get_outline"@, args, path) {
        lemma_opened(params, args, path, Tool::GetOutline, turn);
    }
}

/// A page tool without a page, or with a number that no page can have, is refused.
pub proof fn law_page_tools_need_a_page(
    params: Tree,
    name: Seq<char>,
    args: Tree,
    path: Seq<char>,
    turn: TurnView,
)
    requires
        calls(params, name, args, path),
        name == "get_page_text"@ || name == "render"@ || name == "get_text_blocks"@ || name
            == "extract_region_text"@ || name == "get_page_links"@ || name
            == "intensity_profile"@,
        opens_to(params, turn),
    ensures
        !some_integer(args.get("page"@)) ==> ends_with_error(
            turn,
            "Missing required parameter: "@ + "page"@,
        ),
        forall|n: int|
            #[trigger] is_number(args.get("page"@), n) && (n < i32::MIN || n > i32::MAX)
                ==> ends_with_error(turn, "No such page: "@ + integer_text_spec(n)),
{
    if name == "get_page_text"@ {
        lemma_opened(params, args, path, Tool::GetPageText, turn);
    }
    if name == "render"@ {
        lemma_opened(params, args, path, Tool::Render, turn);
    }
    if name == "get_text_blocks"@ {
        lemma_opened(params, args, path, Tool::GetTextBlocks, turn);
    }
    if name == "extract_region_text"@ {
        lemma_opened(params, args, path, Tool::ExtractRegionText, turn);
    }
    if name == "get_page_links"@ {
        lemma_opened(params, args, path, Tool::GetPageLinks, turn);
    }
    if name == "intensity_profile"@ {
        lemma_opened(params, args, path, Tool::IntensityProfile, turn);
    }
    match page_num_spec(args) {
        Err(e) => {
            lemma_failed(e);
            assert(turn == failed(e));
            assert(ends_with_error(turn, e));
        },
        Ok(_) => {},
    }
    assert forall|n: int|
        #[trigger] is_number(args.get("page"@), n) && (n < i32::MIN || n > i32::MAX)
        implies ends_with_error(turn, "No such page: "@ + integer_text_spec(n)) by {
        law_page_is_the_number_given(args, n);
    }
}

/// `intensity_profile` needs an axis, and `extract_region_text` all four edges; what is
/// missing is reported by its name.
pub proof fn law_required_arguments_are_reported(
    params: Tree,
    args: Tree,
    path: Seq<char>,
    n: int,
    turn: TurnView,
)
    requires
        opens_to(params, turn),
        is_number(args.get("page"@), n),
        i32::MIN <= n <= i32::MAX,
    ensures
        calls(params, "intensity_profile"@, args, path) && !some_text(args.get("axis"@))
            ==> ends_with_error(turn, "Missing required parameter: "@ + "axis"@),
        calls(params, "extract_region_text"@, args, path) && !some_number(args.get("x0"@))
            ==> ends_with_error(turn, "Missing required parameter: "@ + "x0"@),
        calls(params, "extract_region_text"@, args, path) && some_number(args.get("x0"@))
            && !some_number(args.get("y0"@)) ==> ends_with_error(
            turn,
            "Missing required parameter: "@ + "y0"@,
        ),
        calls(params, "extract_region_text"@, args, path) && some_number(args.get("x0"@))
            && some_number(args.get("y0"@)) && !some_number(args.get("x1"@)) ==> ends_with_error(
            turn,
            "Missing required parameter: "@ + "x1"@,
        ),
        calls(params, "extract_region_text"@, args, path) && some_number(args.get("x0"@))
            && some_number(args.get("y0"@)) && some_number(args.get("x1"@)) && !some_number(
            args.get("y1"@),
        ) ==> ends_with_error(turn, "Missing required parameter: "@ + "y1"@),
{
    law_page_is_the_number_given(args, n);
    lemma_failed("Missing required parameter: "@ + "axis"@);
    lemma_failed("Missing required parameter: "@ + "x0"@);
    lemma_failed("Missing required parameter: "@ + "y0"@);
    lemma_failed("Missing required parameter: "@ + "x1"@);
    lemma_failed("Missing required parameter: "@ + "y1"@);
    if calls(params, "intensity_profile"@, args, path) {
        lemma_opened(params, args, path, Tool::IntensityProfile, turn);
    }
    if calls(params, "extract_region_text"@, args, path) {
        lemma_opened(params, args, path, Tool::ExtractRegionText, turn);
    }
}

/// The text of a page that is given is the text that is answered.
pub proof fn law_page_text_is_answered(call: CallView, text: String, turn: TurnView)
    requires
        answers(call, Answer::Text(Ok(text))),
        follows(call, Answer::Text(Ok(text)), turn),
    ensures
        ends_with_text(turn, text@),
{
    law_answers_hold_what_they_are_made_of(text@, seq![], seq![]);
}

/// A value that is set as text is answered with that text.
pub proof fn law_printed_text_is_answered(call: CallView, text: String, turn: TurnView)
    requires
        answers(call, Answer::Pretty(text)),
        follows(call, Answer::Pretty(text), turn),
    ensures
        ends_with_text(turn, text@),
{
    law_answers_hold_what_they_are_made_of(text@, seq![], seq![]);
}

/// What could not be had ends the call with the message as it is; of a file that could not
/// be written the path is named before it.
pub proof fn law_refusals_are_passed_on(
    call: CallView,
    answer: Answer,
    e: Seq<char>,
    turn: TurnView,
)
    requires
        answers(call, answer),
        follows(call, answer, turn),
        match answer {
            Answer::Document(Err(s)) => s@ == e,
            Answer::Info(Err(s)) => s@ == e,
            Answer::Text(Err(s)) => s@ == e,
            Answer::Count(Err(s)) => s@ == e,
            Answer::Hits(Err(s)) => s@ == e,
            Answer::Pixmap(Err(s)) => s@ == e,
            Answer::Blocks(Err(s)) => s@ == e,
            Answer::Outline(Err(s)) => s@ == e,
            Answer::Links(Err(s)) => s@ == e,
            Answer::Written(Err(s)) => s@ == e,
            _ => false,
        },
    ensures
        match need_spec(call) {
            NeedView::WriteFile { path, .. } => ends_with_error(
                turn,
                "Failed to write "@ + path + ": "@ + e,
            ),
            _ => ends_with_error(turn, e),
        },
{
    lemma_failed(e);
    if let NeedView::WriteFile { path, .. } = need_spec(call) {
        lemma_failed("Failed to write "@ + path + ": "@ + e);
    }
}

/// A call takes every answer to what it asks for, unless that holds a pixmap or the facts
/// about a document; an answer that says that something could not be had is taken always.
pub proof fn law_answers_to_the_question_are_taken(call: CallView, answer: Answer)
    requires
        match need_spec(call) {
            NeedView::Document { .. } => answer is Document,
            NeedView::Info => answer is Info,
            NeedView::PageText { .. } => answer is Text,
            NeedView::PageCount => answer is Count,
            NeedView::Hits { .. } => answer is Hits,
            NeedView::Pixmap { .. } => answer is Pixmap,
            NeedView::TextPage { .. } => answer is Blocks,
            NeedView::Outline => answer is Outline,
            NeedView::Links { .. } => answer is Links,
            NeedView::WriteFile { .. } => answer is Written,
            NeedView::PrettyText { .. } => answer is Pretty,
        },
        !(answer is Info || answer is Pixmap) || refusal(answer) is Some,
    ensures
        answers(call, answer),
{
}

/// The numbers of integers are ordered as the integers are.
proof fn lemma_integer_places(m: int, n: int)
    requires
        m <= n,
        n >= 0,
    ensures
        !Double::from_int(m).nan(),
        !Double::from_int(n).negative(),
        Double::from_int(m).place() <= Double::from_int(n).place(),
{
    if m >= 0 {
        let unit = pow2(DOUBLE_SCALE as nat);
        assert(m * unit <= n * unit) by (nonlinear_arith)
            requires
                m <= n,
                0 <= unit,
        ;
        lemma_nearest_monotone(53, (m as nat) * unit, (n as nat) * unit, 1);
    }
}

/// The scale is the resolution in single precision over 72, up to a resolution of 1200;
/// beyond it is that of 1200, and without a resolution that of 150.
pub proof fn law_scale_is_the_resolution_over_72(args: Tree, n: int)
    ensures
        !some_number(args.get("dpi"@)) ==> render_scale_spec(args)
            == Double::from_int(150).narrow_spec().div_spec(72),
        is_number(args.get("dpi"@), n) ==> render_scale_spec(args) == Double::from_int(
            if n < 1200 {
                n
            } else {
                1200
            },
        ).narrow_spec().div_spec(72),
        match args.get("dpi"@) {
            Some(Tree::Number(Number::Float(d))) => {
                &&& !d.nan() && d.place() <= Double::from_int(1200).place() ==> render_scale_spec(
                    args,
                ) == d.narrow_spec().div_spec(72)
                &&& d.place() > Double::from_int(1200).place() ==> render_scale_spec(args)
                    == Double::from_int(1200).narrow_spec().div_spec(72)
            },
            _ => true,
        },
{
    lemma_integer_places(150, 1200);
    if n < 1200 {
        lemma_integer_places(n, 1200);
    } else {
        lemma_integer_places(1200, n);
    }
}

/// `search` needs a query, whatever page is named.
pub proof fn law_search_needs_a_query(params: Tree, args: Tree, path: Seq<char>, turn: TurnView)
    requires
        calls(params, "search"@, args, path),
        !some_text(args.get("query"@)),
        opens_to(params, turn),
    ensures
        ends_with_error(turn, "Missing required parameter: "@ + "query"@),
{
    lemma_opened(params, args, path, Tool::Search, turn);
    lemma_failed("Missing required parameter: "@ + "query"@);
}

/// `search` for a page that no page can be is refused by name.
pub proof fn law_search_refuses_pages_that_cannot_be(
    params: Tree,
    args: Tree,
    path: Seq<char>,
    query: Seq<char>,
    n: int,
    turn: TurnView,
)
    requires
        calls(params, "search"@, args, path),
        is_text(args.get("query"@), query),
        is_number(args.get("page"@), n),
        n < i32::MIN || n > i32::MAX,
        opens_to(params, turn),
    ensures
        ends_with_error(turn, "No such page: "@ + integer_text_spec(n)),
{
    lemma_opened(params, args, path, Tool::Search, turn);
    law_page_is_the_number_given(args, n);
    lemma_failed("No such page: "@ + integer_text_spec(n));
}

/// A call takes no answer to another question than its own.
pub proof fn law_other_answers_are_not_taken(call: CallView, answer: Answer)
    requires
        answers(call, answer),
    ensures
        match need_spec(call) {
            NeedView::Document { .. } => answer is Document,
            NeedView::Info => answer is Info,
            NeedView::PageText { .. } => answer is Text,
            NeedView::PageCount => answer is Count,
            NeedView::Hits { .. } => answer is Hits,
            NeedView::Pixmap { .. } => answer is Pixmap,
            NeedView::TextPage { .. } => answer is Blocks,
            NeedView::Outline => answer is Outline,
            NeedView::Links { .. } => answer is Links,
            NeedView::WriteFile { .. } => answer is Written,
            NeedView::PrettyText { .. } => answer is Pretty,
        },
{
}

/// The facts about a document are taken where they have an entry for each page, and only
/// there.
pub proof fn law_facts_cover_every_page(call: CallView, info: DocumentInfo)
    requires
        need_spec(call) == NeedView::Info,
    ensures
        answers(call, Answer::Info(Ok(info))) <==> info.pages@.len() == if info.page_count > 0 {
            info.page_count as int
        } else {
            0
        },
{
}

} // verus!
