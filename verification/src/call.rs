//! A tool call: what it needs from the outside, step by step, and the answer it ends
//! with.
use crate::args::{
    missing, missing_spec, page_num, page_num_spec, rect_arg, rect_arg_spec, specific_page,
    specific_page_spec,
};
use crate::blocks::{
    text_in, tool_extract_region_text, tool_get_text_blocks, tool_get_text_blocks_spec,
};
use crate::content::{text_content, text_content_spec, tool_error, tool_error_spec};
use crate::document::{Block, DocumentInfo, Link, OutlineItem, Pixmap, Quad, Rect};
use crate::float::{Double, Single};
use crate::info::{tool_get_info, tool_get_info_spec};
use crate::json::{agree_but, Json, Tree};
use crate::links::{tool_get_page_links, tool_get_page_links_spec};
use crate::outline::{tool_get_outline, tool_get_outline_spec};
use crate::profile::{can_profile, profilable, tool_intensity_profile, tool_intensity_profile_spec};
use crate::render::{
    can_render, law_only_named_files_are_drawn, law_resolution_counts_by_its_scale,
    law_scale_of_greater_or_no_resolution, render_result, render_scale, render_scale_spec,
    renderable, rendered_view, tool_render, Rendered, RenderedView, DEFAULT_DPI, HIGHEST_DPI,
};
use crate::search::{
    start_search, start_search_spec, tool_search, tool_search_spec, Search, SearchStep,
    SearchStepView, SearchView, HIT_LIMIT,
};
use crate::text::{joined, trim_spec};
use crate::tools::{named_tool, Tool};
use vstd::prelude::*;

verus! {

/// A tool call that waits for something from the outside.
#[derive(Debug, PartialEq)]
pub enum Call {
    /// Waits for the document.
    Open { tool: Tool, path: String, args: Json },
    /// Waits for the facts about the document.
    Info,
    /// Waits for the text of a page.
    PageText { page: i32 },
    /// Waits for the number of pages to search.
    Count { query: String, specific: Option<i32> },
    /// Waits for the hits on a page.
    Hits { search: Search },
    /// Waits for the pixmap of a page to draw.
    Render { page: i32, scale: Single, args: Json },
    /// Waits for a file to be written.
    Write { path: String, bytes: Vec<u8>, summary: Json },
    /// Waits for the blocks of a page.
    Blocks { page: i32 },
    /// Waits for the blocks of a page, for the text in a region.
    Region { page: i32, region: Rect },
    /// Waits for the table of contents.
    Outline,
    /// Waits for the links of a page.
    Links { page: i32 },
    /// Waits for the pixmap of a page to measure.
    Profile { page: i32, axis: String, args: Json },
    /// Waits for a value to be set as text.
    Print { value: Json },
}

/// What a tool call holds.
pub enum CallView {
    Open { tool: Tool, path: Seq<char>, args: Tree },
    Info,
    PageText { page: i32 },
    Count { query: Seq<char>, specific: Option<i32> },
    Hits { search: SearchView },
    Render { page: i32, scale: Single, args: Tree },
    Write { path: Seq<char>, bytes: Seq<u8>, summary: Tree },
    Blocks { page: i32 },
    Region { page: i32, region: Rect },
    Outline,
    Links { page: i32 },
    Profile { page: i32, axis: Seq<char>, args: Tree },
    Print { value: Tree },
}

impl View for Call {
    type V = CallView;

    open spec fn view(&self) -> CallView {
        match self {
            Call::Open { tool, path, args } => CallView::Open {
                tool: *tool,
                path: path@,
                args: args@,
            },
            Call::Info => CallView::Info,
            Call::PageText { page } => CallView::PageText { page: *page },
            Call::Count { query, specific } => CallView::Count {
                query: query@,
                specific: *specific,
            },
            Call::Hits { search } => CallView::Hits { search: search@ },
            Call::Render { page, scale, args } => CallView::Render {
                page: *page,
                scale: *scale,
                args: args@,
            },
            Call::Write { path, bytes, summary } => CallView::Write {
                path: path@,
                bytes: bytes@,
                summary: summary@,
            },
            Call::Blocks { page } => CallView::Blocks { page: *page },
            Call::Region { page, region } => CallView::Region { page: *page, region: *region },
            Call::Outline => CallView::Outline,
            Call::Links { page } => CallView::Links { page: *page },
            Call::Profile { page, axis, args } => CallView::Profile {
                page: *page,
                axis: axis@,
                args: args@,
            },
            Call::Print { value } => CallView::Print { value: value@ },
        }
    }
}

/// What a tool call needs from the outside.
#[derive(Debug, PartialEq)]
pub enum Need<'a> {
    /// The document at a path.
    Document { path: &'a str },
    /// The facts about the document.
    Info,
    /// The text of a page.
    PageText { page: i32 },
    /// The number of pages.
    PageCount,
    /// The places on a page where a text stands, at most `limit` of them.
    Hits { page: i32, query: &'a str, limit: u32 },
    /// A pixmap of a page at `scale` pixels to the point.
    Pixmap { page: i32, scale: Single },
    /// The blocks of a page.
    TextPage { page: i32 },
    /// The table of contents.
    Outline,
    /// The links of a page.
    Links { page: i32 },
    /// A file to be written.
    WriteFile { path: &'a str, bytes: &'a Vec<u8> },
    /// A value to be set as text, indented.
    PrettyText { value: &'a Json },
}

/// What a need says.
pub enum NeedView {
    Document { path: Seq<char> },
    Info,
    PageText { page: i32 },
    PageCount,
    Hits { page: i32, query: Seq<char>, limit: u32 },
    Pixmap { page: i32, scale: Single },
    TextPage { page: i32 },
    Outline,
    Links { page: i32 },
    WriteFile { path: Seq<char>, bytes: Seq<u8> },
    PrettyText { value: Tree },
}

impl<'a> View for Need<'a> {
    type V = NeedView;

    open spec fn view(&self) -> NeedView {
        match self {
            Need::Document { path } => NeedView::Document { path: path@ },
            Need::Info => NeedView::Info,
            Need::PageText { page } => NeedView::PageText { page: *page },
            Need::PageCount => NeedView::PageCount,
            Need::Hits { page, query, limit } => NeedView::Hits {
                page: *page,
                query: query@,
                limit: *limit,
            },
            Need::Pixmap { page, scale } => NeedView::Pixmap { page: *page, scale: *scale },
            Need::TextPage { page } => NeedView::TextPage { page: *page },
            Need::Outline => NeedView::Outline,
            Need::Links { page } => NeedView::Links { page: *page },
            Need::WriteFile { path, bytes } => NeedView::WriteFile { path: path@, bytes: bytes@ },
            Need::PrettyText { value } => NeedView::PrettyText { value: value@ },
        }
    }
}

/// What the outside answers: what was asked for, or a message that it could not be
/// had.
#[derive(Debug, PartialEq)]
pub enum Answer {
    Document(Result<(), String>),
    Info(Result<DocumentInfo, String>),
    Text(Result<String, String>),
    Count(Result<i32, String>),
    Hits(Result<Vec<Quad>, String>),
    Pixmap(Result<Pixmap, String>),
    Blocks(Result<Vec<Block>, String>),
    Outline(Result<Vec<OutlineItem>, String>),
    Links(Result<Vec<Link>, String>),
    Written(Result<(), String>),
    Pretty(String),
}

/// What comes of a step: the answer to the call, or another thing it waits for.
#[derive(Debug, PartialEq)]
pub enum Turn {
    Reply(Json),
    Ask(Call),
}

/// What a turn says.
pub enum TurnView {
    Reply(Tree),
    Ask(CallView),
}

impl View for Turn {
    type V = TurnView;

    open spec fn view(&self) -> TurnView {
        match self {
            Turn::Reply(v) => TurnView::Reply(v@),
            Turn::Ask(c) => TurnView::Ask(c@),
        }
    }
}

/// The end of a call that failed.
pub open spec fn failed(e: Seq<char>) -> TurnView {
    TurnView::Reply(tool_error_spec(e))
}

/// A value to be shown.
pub open spec fn shown(value: Tree) -> TurnView {
    TurnView::Ask(CallView::Print { value })
}

/// The end of a call that failed.
fn fail(e: String) -> (r: Turn)
    ensures
        r@ == failed(e@),
{
    Turn::Reply(tool_error(e.as_str()))
}

/// A value to be shown.
fn show(value: Json) -> (r: Turn)
    ensures
        r@ == shown(value@),
{
    Turn::Ask(Call::Print { value })
}

/// The arguments of a call; none where they are left out.
pub open spec fn arguments_spec(params: Tree) -> Tree {
    match params.get("arguments"@) {
        Some(args) => args,
        None => Tree::Object(seq![]),
    }
}

/// The start of a call: a tool that is known, and a path.
pub open spec fn handle_tool_call_spec(params: Tree) -> TurnView {
    let args = arguments_spec(params);
    match params.text_at("name"@) {
        Some(name) => match args.text_at("path"@) {
            Some(path) => match named_tool(name) {
                Some(tool) => TurnView::Ask(CallView::Open { tool, path, args }),
                None => failed("Unknown tool: "@ + name),
            },
            None => failed(missing_spec("path"@)),
        },
        None => failed("Missing tool name"@),
    }
}

/// The start of a call.
pub fn handle_tool_call(params: &Json) -> (r: Turn)
    ensures
        r@ == handle_tool_call_spec(params@),
{
    let name: String = match params.text_at("name") {
        Some(n) => n,
        None => return fail("Missing tool name".to_owned()),
    };
    let args: Json = match params.get("arguments") {
        Some(a) => a.clone(),
        None => Json::object(),
    };
    let path: String = match args.text_at("path") {
        Some(p) => p,
        None => return fail(missing("path")),
    };
    match Tool::from_name(name.as_str()) {
        Some(tool) => Turn::Ask(Call::Open { tool, path, args }),
        None => fail(joined("Unknown tool: ", name.as_str())),
    }
}

/// What a tool does first, once the document is open.
pub open spec fn begin_spec(tool: Tool, args: Tree) -> TurnView {
    match tool {
        Tool::GetInfo => TurnView::Ask(CallView::Info),
        Tool::GetPageText => match page_num_spec(args) {
            Ok(page) => TurnView::Ask(CallView::PageText { page }),
            Err(e) => failed(e),
        },
        Tool::Search => match args.text_at("query"@) {
            Some(query) => match specific_page_spec(args) {
                Ok(specific) => TurnView::Ask(CallView::Count { query, specific }),
                Err(e) => failed(e),
            },
            None => failed(missing_spec("query"@)),
        },
        Tool::Render => match page_num_spec(args) {
            Ok(page) => TurnView::Ask(
                CallView::Render { page, scale: render_scale_spec(args), args },
            ),
            Err(e) => failed(e),
        },
        Tool::GetTextBlocks => match page_num_spec(args) {
            Ok(page) => TurnView::Ask(CallView::Blocks { page }),
            Err(e) => failed(e),
        },
        Tool::ExtractRegionText => match page_num_spec(args) {
            Ok(page) => match rect_arg_spec(args) {
                Ok(region) => TurnView::Ask(CallView::Region { page, region }),
                Err(e) => failed(e),
            },
            Err(e) => failed(e),
        },
        Tool::GetOutline => TurnView::Ask(CallView::Outline),
        Tool::GetPageLinks => match page_num_spec(args) {
            Ok(page) => TurnView::Ask(CallView::Links { page }),
            Err(e) => failed(e),
        },
        Tool::IntensityProfile => match page_num_spec(args) {
            Ok(page) => match args.text_at("axis"@) {
                Some(axis) => TurnView::Ask(CallView::Profile { page, axis, args }),
                None => failed(missing_spec("axis"@)),
            },
            Err(e) => failed(e),
        },
    }
}

/// What a tool does first, once the document is open.
pub fn begin(tool: Tool, args: Json) -> (r: Turn)
    ensures
        r@ == begin_spec(tool, args@),
{
    match tool {
        Tool::GetInfo => Turn::Ask(Call::Info),
        Tool::Search => match args.text_at("query") {
            Some(query) => match specific_page(&args) {
                Ok(specific) => Turn::Ask(Call::Count { query, specific }),
                Err(e) => fail(e),
            },
            None => fail(missing("query")),
        },
        Tool::GetOutline => Turn::Ask(Call::Outline),
        _ => {
            let page: i32 = match page_num(&args) {
                Ok(p) => p,
                Err(e) => return fail(e),
            };
            match tool {
                Tool::GetPageText => Turn::Ask(Call::PageText { page }),
                Tool::Render => {
                    let scale: Single = render_scale(&args);
                    Turn::Ask(Call::Render { page, scale, args })
                },
                Tool::GetTextBlocks => Turn::Ask(Call::Blocks { page }),
                Tool::ExtractRegionText => match rect_arg(&args) {
                    Ok(region) => Turn::Ask(Call::Region { page, region }),
                    Err(e) => fail(e),
                },
                Tool::GetPageLinks => Turn::Ask(Call::Links { page }),
                _ => match args.text_at("axis") {
                    Some(axis) => Turn::Ask(Call::Profile { page, axis, args }),
                    None => fail(missing("axis")),
                },
            }
        },
    }
}

/// What comes of a step of a search.
pub open spec fn searched(step: SearchStepView) -> TurnView {
    match step {
        SearchStepView::Next(search) => TurnView::Ask(CallView::Hits { search }),
        SearchStepView::Found(v) => shown(v),
    }
}

/// What comes of a step of a search.
fn after_search(step: SearchStep) -> (r: Turn)
    ensures
        r@ == searched(step@),
{
    match step {
        SearchStep::Next(search) => Turn::Ask(Call::Hits { search }),
        SearchStep::Found(v) => show(v),
    }
}

/// What comes of a rendered picture.
pub open spec fn drawn(r: Result<RenderedView, Seq<char>>) -> TurnView {
    match r {
        Ok(RenderedView::Inline(v)) => TurnView::Reply(v),
        Ok(RenderedView::File { path, bytes, summary }) => TurnView::Ask(
            CallView::Write { path, bytes, summary },
        ),
        Err(e) => failed(e),
    }
}

/// What comes of a rendered picture.
fn after_render(d: Result<Rendered, String>) -> (r: Turn)
    ensures
        r@ == drawn(rendered_view(d)),
{
    match d {
        Ok(Rendered::Inline(v)) => Turn::Reply(v),
        Ok(Rendered::File { path, bytes, summary }) => Turn::Ask(
            Call::Write { path, bytes, summary },
        ),
        Err(e) => fail(e),
    }
}

/// The message for a file that could not be written.
pub open spec fn write_error_spec(path: Seq<char>, e: Seq<char>) -> Seq<char> {
    "Failed to write "@ + path + ": "@ + e
}

/// The message of an answer that says that something could not be had.
pub open spec fn refusal(answer: Answer) -> Option<Seq<char>> {
    match answer {
        Answer::Document(Err(e)) => Some(e@),
        Answer::Info(Err(e)) => Some(e@),
        Answer::Text(Err(e)) => Some(e@),
        Answer::Count(Err(e)) => Some(e@),
        Answer::Hits(Err(e)) => Some(e@),
        Answer::Pixmap(Err(e)) => Some(e@),
        Answer::Blocks(Err(e)) => Some(e@),
        Answer::Outline(Err(e)) => Some(e@),
        Answer::Links(Err(e)) => Some(e@),
        Answer::Written(Err(e)) => Some(e@),
        _ => None,
    }
}

/// Whether an answer is of the kind that a call waits for.
pub open spec fn matching(call: CallView, answer: Answer) -> bool {
    match call {
        CallView::Open { .. } => answer is Document,
        CallView::Info => answer is Info,
        CallView::PageText { .. } => answer is Text,
        CallView::Count { .. } => answer is Count,
        CallView::Hits { .. } => answer is Hits,
        CallView::Render { .. } => answer is Pixmap,
        CallView::Write { .. } => answer is Written,
        CallView::Blocks { .. } => answer is Blocks,
        CallView::Region { .. } => answer is Blocks,
        CallView::Outline => answer is Outline,
        CallView::Links { .. } => answer is Links,
        CallView::Profile { .. } => answer is Pixmap,
        CallView::Print { .. } => answer is Pretty,
    }
}

/// Whether a call can go on with an answer: it is of the kind that the call waits for,
/// the facts about a document cover every page, and a pixmap is complete and within the
/// limits of the tool.
pub open spec fn answers(call: CallView, answer: Answer) -> bool {
    matching(call, answer) && match (call, answer) {
        (CallView::Info, Answer::Info(Ok(info))) => info.wf(),
        (CallView::Render { scale, args, .. }, Answer::Pixmap(Ok(pix))) => renderable(
            args,
            scale,
            pix,
        ),
        (CallView::Profile { axis, .. }, Answer::Pixmap(Ok(pix))) => profilable(axis, pix),
        _ => true,
    }
}

/// Whether a call can go on with an answer.
pub fn can_advance(call: &Call, answer: &Answer) -> (r: bool)
    ensures
        r == answers(call@, *answer),
{
    match (call, answer) {
        (Call::Open { .. }, Answer::Document(_)) => true,
        (Call::Info, Answer::Info(Ok(info))) => info.is_complete(),
        (Call::Info, Answer::Info(Err(_))) => true,
        (Call::PageText { .. }, Answer::Text(_)) => true,
        (Call::Count { .. }, Answer::Count(_)) => true,
        (Call::Hits { .. }, Answer::Hits(_)) => true,
        (Call::Render { scale, args, .. }, Answer::Pixmap(Ok(pix))) => can_render(
            args,
            *scale,
            pix,
        ),
        (Call::Render { .. }, Answer::Pixmap(Err(_))) => true,
        (Call::Write { .. }, Answer::Written(_)) => true,
        (Call::Blocks { .. }, Answer::Blocks(_)) => true,
        (Call::Region { .. }, Answer::Blocks(_)) => true,
        (Call::Outline, Answer::Outline(_)) => true,
        (Call::Links { .. }, Answer::Links(_)) => true,
        (Call::Profile { axis, .. }, Answer::Pixmap(Ok(pix))) => can_profile(axis.as_str(), pix),
        (Call::Profile { .. }, Answer::Pixmap(Err(_))) => true,
        (Call::Print { .. }, Answer::Pretty(_)) => true,
        _ => false,
    }
}

/// What a call needs from the outside.
pub open spec fn need_spec(call: CallView) -> NeedView {
    match call {
        CallView::Open { path, .. } => NeedView::Document { path },
        CallView::Info => NeedView::Info,
        CallView::PageText { page } => NeedView::PageText { page },
        CallView::Count { .. } => NeedView::PageCount,
        CallView::Hits { search } => NeedView::Hits {
            page: search.page,
            query: search.query,
            limit: HIT_LIMIT,
        },
        CallView::Render { page, scale, .. } => NeedView::Pixmap { page, scale },
        CallView::Write { path, bytes, .. } => NeedView::WriteFile { path, bytes },
        CallView::Blocks { page } => NeedView::TextPage { page },
        CallView::Region { page, .. } => NeedView::TextPage { page },
        CallView::Outline => NeedView::Outline,
        CallView::Links { page } => NeedView::Links { page },
        CallView::Profile { page, .. } => NeedView::Pixmap { page, scale: Single::one() },
        CallView::Print { value } => NeedView::PrettyText { value },
    }
}

impl Call {
    /// What this call needs from the outside.
    pub fn need(&self) -> (r: Need<'_>)
        ensures
            r@ == need_spec(self@),
    {
        match self {
            Call::Open { path, .. } => Need::Document { path: path.as_str() },
            Call::Info => Need::Info,
            Call::PageText { page } => Need::PageText { page: *page },
            Call::Count { .. } => Need::PageCount,
            Call::Hits { search } => Need::Hits {
                page: search.page,
                query: search.query.as_str(),
                limit: HIT_LIMIT,
            },
            Call::Render { page, scale, .. } => Need::Pixmap { page: *page, scale: *scale },
            Call::Write { path, bytes, .. } => Need::WriteFile { path: path.as_str(), bytes },
            Call::Blocks { page } => Need::TextPage { page: *page },
            Call::Region { page, .. } => Need::TextPage { page: *page },
            Call::Outline => Need::Outline,
            Call::Links { page } => Need::Links { page: *page },
            Call::Profile { page, .. } => Need::Pixmap { page: *page, scale: Single::new_one() },
            Call::Print { value } => Need::PrettyText { value },
        }
    }
}

/// What a call does with what it asked for. Of a page to be drawn see `follows`.
pub open spec fn granted(call: CallView, answer: Answer) -> TurnView {
    match (call, answer) {
        (CallView::Open { tool, args, .. }, Answer::Document(Ok(_))) => begin_spec(tool, args),
        (CallView::Info, Answer::Info(Ok(info))) => shown(tool_get_info_spec(info)),
        (CallView::PageText { .. }, Answer::Text(Ok(text))) => TurnView::Reply(
            text_content_spec(text@),
        ),
        (CallView::Count { query, specific }, Answer::Count(Ok(n))) => searched(
            start_search_spec(query, specific, n),
        ),
        (CallView::Hits { search }, Answer::Hits(Ok(hits))) => searched(
            tool_search_spec(search, hits@),
        ),
        (CallView::Write { summary, .. }, Answer::Written(Ok(_))) => shown(summary),
        (CallView::Blocks { page }, Answer::Blocks(Ok(blocks))) => shown(
            tool_get_text_blocks_spec(page, blocks@),
        ),
        (CallView::Region { region, .. }, Answer::Blocks(Ok(blocks))) => TurnView::Reply(
            text_content_spec(trim_spec(text_in(blocks@, region))),
        ),
        (CallView::Outline, Answer::Outline(Ok(items))) => shown(tool_get_outline_spec(items@)),
        (CallView::Links { page }, Answer::Links(Ok(links))) => shown(
            tool_get_page_links_spec(page, links@),
        ),
        (CallView::Profile { page, axis, args }, Answer::Pixmap(Ok(pix))) =>
            match tool_intensity_profile_spec(page, axis, args, pix) {
                Ok(v) => shown(v),
                Err(e) => failed(e),
            },
        (CallView::Print { .. }, Answer::Pretty(text)) => TurnView::Reply(text_content_spec(text@)),
        _ => TurnView::Ask(call),
    }
}

/// Whether `turn` is what a call does with an answer. What could not be had ends the
/// call with the message.
pub open spec fn follows(call: CallView, answer: Answer, turn: TurnView) -> bool {
    match refusal(answer) {
        Some(e) => match call {
            CallView::Write { path, .. } => turn == failed(write_error_spec(path, e)),
            _ => turn == failed(e),
        },
        None => match (call, answer) {
            (CallView::Render { scale, args, .. }, Answer::Pixmap(Ok(pix))) => exists|
                r: Result<RenderedView, Seq<char>>,
            | #[trigger]
                render_result(args, scale, pix, r) && turn == drawn(r),
            _ => turn == granted(call, answer),
        },
    }
}

/// Go on with a call, once what it waits for is here.
pub fn advance(call: Call, answer: Answer) -> (r: Turn)
    requires
        answers(call@, answer),
    ensures
        follows(call@, answer, r@),
{
    match (call, answer) {
        (_, Answer::Document(Err(e))) => fail(e),
        (_, Answer::Info(Err(e))) => fail(e),
        (_, Answer::Text(Err(e))) => fail(e),
        (_, Answer::Count(Err(e))) => fail(e),
        (_, Answer::Hits(Err(e))) => fail(e),
        (_, Answer::Pixmap(Err(e))) => fail(e),
        (_, Answer::Blocks(Err(e))) => fail(e),
        (_, Answer::Outline(Err(e))) => fail(e),
        (_, Answer::Links(Err(e))) => fail(e),
        (Call::Write { path, .. }, Answer::Written(Err(e))) => {
            let head: String = joined("Failed to write ", path.as_str());
            let head: String = joined(head.as_str(), ": ");
            fail(joined(head.as_str(), e.as_str()))
        },
        (Call::Open { tool, args, .. }, Answer::Document(Ok(_))) => begin(tool, args),
        (Call::Info, Answer::Info(Ok(info))) => show(tool_get_info(&info)),
        (Call::PageText { .. }, Answer::Text(Ok(text))) => Turn::Reply(text_content(text.as_str())),
        (Call::Count { query, specific }, Answer::Count(Ok(n))) => after_search(
            start_search(query.as_str(), specific, n),
        ),
        (Call::Hits { search }, Answer::Hits(Ok(hits))) => after_search(tool_search(search, &hits)),
        (Call::Render { scale, args, .. }, Answer::Pixmap(Ok(pix))) => {
            let drawing: Result<Rendered, String> = tool_render(&args, scale, &pix);
            assert(render_result(args@, scale, pix, rendered_view(drawing)));
            after_render(drawing)
        },
        (Call::Write { summary, .. }, Answer::Written(Ok(_))) => show(summary),
        (Call::Blocks { page }, Answer::Blocks(Ok(blocks))) => show(
            tool_get_text_blocks(page, &blocks),
        ),
        (Call::Region { region, .. }, Answer::Blocks(Ok(blocks))) => Turn::Reply(
            tool_extract_region_text(&blocks, region),
        ),
        (Call::Outline, Answer::Outline(Ok(items))) => show(tool_get_outline(&items)),
        (Call::Links { page }, Answer::Links(Ok(links))) => show(tool_get_page_links(page, &links)),
        (Call::Profile { page, axis, args }, Answer::Pixmap(Ok(pix))) =>
            match tool_intensity_profile(page, axis.as_str(), &args, &pix) {
                Ok(v) => show(v),
                Err(e) => fail(e),
            },
        (Call::Print { .. }, Answer::Pretty(text)) => Turn::Reply(text_content(text.as_str())),
        (call, _) => Turn::Ask(call),
    }
}

/// A bound on the number of answers that a call still takes.
pub open spec fn patience(call: CallView) -> int {
    match call {
        CallView::Open { .. } => 0x2_0000_0002,
        CallView::Count { .. } => 0x2_0000_0001,
        CallView::Hits { search } => if search.page < search.last {
            2 + search.last - search.page
        } else {
            2
        },
        CallView::Write { .. } => 1,
        CallView::Print { .. } => 0,
        _ => 2,
    }
}

/// Every answer that a call can go on with brings it nearer to its end: a call is
/// answered after finitely many steps.
pub proof fn law_calls_come_to_an_end(call: CallView, answer: Answer, turn: TurnView)
    requires
        answers(call, answer),
        follows(call, answer, turn),
    ensures
        turn matches TurnView::Ask(next) ==> 0 <= patience(next) < patience(call),
{
}

/// What could not be had ends the call with an error that ends in the message.
pub proof fn law_refusals_are_reported(call: CallView, answer: Answer, turn: TurnView, e: Seq<char>)
    requires
        answers(call, answer),
        follows(call, answer, turn),
        refusal(answer) == Some(e),
    ensures
        exists|head: Seq<char>| turn == #[trigger] failed(head + e),
{
    match call {
        CallView::Write { path, .. } => {
            assert(turn == failed(("Failed to write "@ + path + ": "@) + e));
        },
        _ => {
            assert(Seq::<char>::empty() + e =~= e);
            assert(turn == failed(Seq::<char>::empty() + e));
        },
    }
}

/// A tool that is not known, or a call without a path, is answered with an error before
/// any document is called for; every other call first calls for its document.
pub proof fn law_document_comes_first(params: Tree)
    ensures
        match handle_tool_call_spec(params) {
            TurnView::Ask(call) => params.text_at("name"@) matches Some(name) && named_tool(name)
                is Some && (arguments_spec(params).text_at("path"@) matches Some(path)
                && need_spec(call) == (NeedView::Document { path })),
            TurnView::Reply(v) => exists|e: Seq<char>| v == #[trigger] tool_error_spec(e),
        },
{
    match handle_tool_call_spec(params) {
        TurnView::Ask(_) => {},
        TurnView::Reply(v) => {
            match params.text_at("name"@) {
                Some(name) => match arguments_spec(params).text_at("path"@) {
                    Some(_) => {
                        assert(v == tool_error_spec("Unknown tool: "@ + name));
                    },
                    None => {
                        assert(v == tool_error_spec(missing_spec("path"@)));
                    },
                },
                None => {
                    assert(v == tool_error_spec("Missing tool name"@));
                },
            }
        },
    }
}

/// A call asks for a file to be written only when it draws a page, and only the file that
/// its arguments name.
pub proof fn law_only_named_files_are_written(call: CallView, answer: Answer, turn: TurnView)
    requires
        answers(call, answer),
        follows(call, answer, turn),
    ensures
        turn matches TurnView::Ask(CallView::Write { path, .. }) ==> call matches CallView::Render {
            args,
            ..
        } && args.text_at("output_path"@) == Some(path),
{
    if let (CallView::Render { scale, args, .. }, Answer::Pixmap(Ok(pix))) = (call, answer) {
        let r = choose|r: Result<RenderedView, Seq<char>>| #[trigger]
            render_result(args, scale, pix, r) && turn == drawn(r);
        law_only_named_files_are_drawn(args, scale, pix, r);
    }
}

/// Given the scale, the resolution that is named changes no step of a drawing.
proof fn lemma_draws_alike(
    page: i32,
    scale: Single,
    a: Tree,
    b: Tree,
    answer: Answer,
    turn: TurnView,
)
    requires
        agree_but(a, b, "dpi"@),
        answers(CallView::Render { page, scale, args: a }, answer),
    ensures
        answers(CallView::Render { page, scale, args: b }, answer),
        follows(CallView::Render { page, scale, args: a }, answer, turn) ==> follows(
            CallView::Render { page, scale, args: b },
            answer,
            turn,
        ),
{
    if let Answer::Pixmap(Ok(pix)) = answer {
        law_resolution_counts_by_its_scale(
            a,
            b,
            scale,
            pix,
            Err::<RenderedView, Seq<char>>(seq![]),
        );
        if follows(CallView::Render { page, scale, args: a }, answer, turn) {
            let r = choose|r: Result<RenderedView, Seq<char>>| #[trigger]
                render_result(a, scale, pix, r) && turn == drawn(r);
            law_resolution_counts_by_its_scale(a, b, scale, pix, r);
            assert(render_result(b, scale, pix, r));
        }
    }
}

/// A call to draw a page with a resolution beyond the highest one goes step by step as
/// one with the highest, and a call without a resolution as one with the default.
pub proof fn law_resolution_is_capped_or_default(a: Tree, b: Tree, answer: Answer, turn: TurnView)
    requires
        agree_but(a, b, "dpi"@),
        match (a.double_at("dpi"@), b.double_at("dpi"@)) {
            (Some(x), Some(y)) => y == Double::from_int(HIGHEST_DPI as int) && x.place()
                > y.place(),
            (None, Some(y)) => y == Double::from_int(DEFAULT_DPI as int),
            (_, None) => false,
        },
    ensures
        match (begin_spec(Tool::Render, a), begin_spec(Tool::Render, b)) {
            (TurnView::Ask(x), TurnView::Ask(y)) => {
                &&& need_spec(x) == need_spec(y)
                &&& answers(x, answer) == answers(y, answer)
                &&& answers(x, answer) ==> follows(x, answer, turn) == follows(y, answer, turn)
            },
            (x, y) => x == y,
        },
{
    law_scale_of_greater_or_no_resolution(a, b);
    let scale = render_scale_spec(a);
    assert(page_num_spec(a) == page_num_spec(b)) by {
        reveal_strlit("dpi");
        reveal_strlit("page");
        assert("dpi"@.len() == 3 && "page"@.len() == 4);
        assert(a.get("page"@) == b.get("page"@));
    }
    if let Ok(page) = page_num_spec(a) {
        let x = CallView::Render { page, scale, args: a };
        let y = CallView::Render { page, scale, args: b };
        assert(begin_spec(Tool::Render, a) == TurnView::Ask(x));
        assert(begin_spec(Tool::Render, b) == TurnView::Ask(y));
        if answers(x, answer) {
            lemma_draws_alike(page, scale, a, b, answer, turn);
        }
        if answers(y, answer) {
            lemma_draws_alike(page, scale, b, a, answer, turn);
        }
    }
}

} // verus!
