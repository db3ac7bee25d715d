//! What is read of a document is answered as it is.
use crate::args::float_arg_spec;
use crate::blocks::{
    block_text, block_tree, line_in, line_text, lines_in, text_in, tool_get_text_blocks_spec,
};
use crate::call::{answers, follows, need_spec, Answer, CallView, NeedView, TurnView};
use crate::content::quad_bbox_spec;
use crate::document::{Block, BlockKind, DocumentInfo, Link, OutlineItem, Quad, Rect, TextChar};
use crate::float::Single;
use crate::info::{page_size_tree, page_sizes, tool_get_info_spec};
use crate::json::{find, int_tree, Tree};
use crate::laws::calls::{asks, calls, ends_with_text, lemma_opened, opens_to};
use crate::laws::numbers::{law_all_numbers_are_ordered, law_order_is_by_value, no_greater};
use crate::laws::values::{
    has_members, is_box, is_coordinate, is_greatest, is_least, is_number, is_text,
    law_answers_hold_what_they_are_made_of, law_bounding_box_is_tight, law_boxes_are_shown,
    law_coordinates_are_shown, law_integers_are_shown, law_page_is_the_number_given, some_integer,
};
use crate::links::{link_tree, tool_get_page_links_spec};
use crate::outline::{entries, entry_tree};
use crate::search::{match_tree, page_matches, search_tree, SearchView};
use crate::text::{trim_end_spec, trim_spec};
use crate::tools::Tool;
use vstd::prelude::*;

verus! {

/// Whether an entry says of a block what it is: its kind, its own edges, and for text the
/// lines without the white space at the end.
pub open spec fn tells_block(t: Tree, b: Block) -> bool {
    &&& has_members(
        t,
        if b.kind is Text {
            3
        } else {
            2
        },
    )
    &&& is_box(t.get("bbox"@), b.bounds.x0, b.bounds.y0, b.bounds.x1, b.bounds.y1)
    &&& match b.kind {
        BlockKind::Text => is_text(t.get("type"@), "text"@) && is_text(
            t.get("text"@),
            trim_end_spec(block_text(b.lines@)),
        ),
        BlockKind::Image => is_text(t.get("type"@), "image"@) && t.get("text"@) is None,
        BlockKind::Other(name) => is_text(t.get("type"@), name@) && t.get("text"@) is None,
    }
}

proof fn lemma_tells_block(b: Block)
    ensures
        tells_block(block_tree(b), b),
{
    law_boxes_are_shown(b.bounds.x0, b.bounds.y0, b.bounds.x1, b.bounds.y1);
    reveal_strlit("type");
    reveal_strlit("bbox");
    reveal_strlit("text");
    assert("type"@[0] == 't' && "type"@[1] == 'y');
    assert("bbox"@[0] == 'b');
    assert("text"@[0] == 't' && "text"@[1] == 'e');
    reveal_with_fuel(find, 4);
}

/// `get_text_blocks` lists every block of the page that is named, in its place, and says
/// of each what it is.
pub proof fn law_blocks_are_listed_as_they_are(
    params: Tree,
    args: Tree,
    path: Seq<char>,
    n: int,
    call: CallView,
    blocks: Vec<Block>,
    turn: TurnView,
)
    requires
        calls(params, "get_text_blocks"@, args, path),
        is_number(args.get("page"@), n),
        i32::MIN <= n <= i32::MAX,
        opens_to(params, TurnView::Ask(call)),
        follows(call, Answer::Blocks(Ok(blocks)), turn),
    ensures
        turn matches TurnView::Ask(next) && need_spec(next) matches NeedView::PrettyText { value }
            && {
            &&& has_members(value, 3)
            &&& is_number(value.get("page"@), n)
            &&& is_number(value.get("block_count"@), blocks@.len() as int)
            &&& value.get("blocks"@) matches Some(Tree::Array(listed)) && listed.len()
                == blocks@.len() && (forall|i: int|
                0 <= i < blocks@.len() ==> tells_block(#[trigger] listed[i], blocks@[i]))
        },
{
    lemma_opened(params, args, path, Tool::GetTextBlocks, TurnView::Ask(call));
    law_page_is_the_number_given(args, n);
    lemma_blocks(n as i32, blocks);
}

proof fn lemma_blocks(page: i32, blocks: Vec<Block>)
    ensures
        ({
            let value = tool_get_text_blocks_spec(page, blocks@);
            &&& has_members(value, 3)
            &&& is_number(value.get("page"@), page as int)
            &&& is_number(value.get("block_count"@), blocks@.len() as int)
            &&& value.get("blocks"@) matches Some(Tree::Array(listed)) && listed.len()
                == blocks@.len() && (forall|i: int|
                0 <= i < blocks@.len() ==> tells_block(#[trigger] listed[i], blocks@[i]))
        }),
{
    let value = tool_get_text_blocks_spec(page, blocks@);
    reveal_strlit("page");
    reveal_strlit("block_count");
    reveal_strlit("blocks");
    assert("page"@.len() == 4 && "block_count"@.len() == 11 && "blocks"@.len() == 6);
    reveal_with_fuel(find, 4);
    law_integers_are_shown(page as int);
    assert(blocks@.len() == blocks.len());
    law_integers_are_shown(blocks@.len() as int);
    let listed = value.get("blocks"@)->0->Array_0;
    assert forall|i: int| 0 <= i < blocks@.len() implies tells_block(
        #[trigger] listed[i],
        blocks@[i],
    ) by {
        lemma_tells_block(blocks@[i]);
    }
}

/// The text of a line is that of its characters, one after the other; a glyph without a
/// character adds nothing.
pub proof fn law_line_is_its_characters(line: Seq<TextChar>, c: TextChar)
    ensures
        line_text(seq![]) == Seq::<char>::empty(),
        c.ch matches Some(x) ==> line_text(line.push(c)) == line_text(line).push(x),
        c.ch is None ==> line_text(line.push(c)) == line_text(line),
{
    assert(line.push(c).drop_last() =~= line);
}

/// The text of a block is that of its lines, one after the other, each with a line break.
pub proof fn law_block_is_its_lines(lines: Seq<Vec<TextChar>>, line: Vec<TextChar>)
    ensures
        block_text(seq![]) == Seq::<char>::empty(),
        block_text(lines.push(line)) == block_text(lines) + line_text(line@) + seq!['\n'],
{
    assert(lines.push(line).drop_last() =~= lines);
    assert(block_text(lines.push(line)) =~= block_text(lines) + line_text(line@) + seq!['\n']);
}

/// A character is in the text of a region just where its point is not left of the region,
/// not right of it, not above it and not below it.
pub proof fn law_region_takes_the_characters_in_it(line: Seq<TextChar>, c: TextChar, g: Rect)
    requires
        g.x0.finite() && g.y0.finite() && g.x1.finite() && g.y1.finite(),
        c.origin.x.finite() && c.origin.y.finite(),
    ensures
        line_in(seq![], g) == Seq::<char>::empty(),
        ({
            let x = c.origin.x.value();
            let y = c.origin.y.value();
            if g.x0.value() <= x && x <= g.x1.value() && g.y0.value() <= y && y <= g.y1.value() {
                match c.ch {
                    Some(t) => line_in(line.push(c), g) == line_in(line, g).push(t),
                    None => line_in(line.push(c), g) == line_in(line, g),
                }
            } else {
                line_in(line.push(c), g) == line_in(line, g)
            }
        }),
{
    assert(line.push(c).drop_last() =~= line);
    law_order_is_by_value(g.x0, c.origin.x);
    law_order_is_by_value(c.origin.x, g.x1);
    law_order_is_by_value(g.y0, c.origin.y);
    law_order_is_by_value(c.origin.y, g.y1);
}

/// It is so for points and edges at infinity too; what is not a number is in no region.
pub proof fn law_region_may_be_without_end(line: Seq<TextChar>, c: TextChar, g: Rect)
    ensures
        ({
            let x = c.origin.x;
            let y = c.origin.y;
            let within = no_greater(g.x0, x) && no_greater(x, g.x1) && no_greater(g.y0, y)
                && no_greater(y, g.y1);
            if c.ch is Some && within {
                line_in(line.push(c), g) == line_in(line, g).push(c.ch->0)
            } else {
                line_in(line.push(c), g) == line_in(line, g)
            }
        }),
{
    assert(line.push(c).drop_last() =~= line);
    law_all_numbers_are_ordered(g.x0, c.origin.x);
    law_all_numbers_are_ordered(c.origin.x, g.x1);
    law_all_numbers_are_ordered(g.y0, c.origin.y);
    law_all_numbers_are_ordered(c.origin.y, g.y1);
}

/// The text of a region is that of the lines that have a character in it, each with a line
/// break, in the text blocks alone.
pub proof fn law_region_takes_lines_of_text_blocks(
    lines: Seq<Vec<TextChar>>,
    line: Vec<TextChar>,
    blocks: Seq<Block>,
    block: Block,
    g: Rect,
)
    ensures
        lines_in(seq![], g) == Seq::<char>::empty(),
        line_in(line@, g).len() > 0 ==> lines_in(lines.push(line), g) == lines_in(lines, g)
            + line_in(line@, g) + seq!['\n'],
        line_in(line@, g).len() == 0 ==> lines_in(lines.push(line), g) == lines_in(lines, g),
        text_in(seq![], g) == Seq::<char>::empty(),
        block.kind is Text ==> text_in(blocks.push(block), g) == text_in(blocks, g) + lines_in(
            block.lines@,
            g,
        ),
        !(block.kind is Text) ==> text_in(blocks.push(block), g) == text_in(blocks, g),
{
    assert(lines.push(line).drop_last() =~= lines);
    assert(blocks.push(block).drop_last() =~= blocks);
    if line_in(line@, g).len() > 0 {
        assert(lines_in(lines.push(line), g) =~= lines_in(lines, g) + line_in(line@, g)
            + seq!['\n']);
    }
}

/// `extract_region_text` answers with the text of the region between the four edges that
/// are given, each under its own name, without the white space at either end.
pub proof fn law_region_text_is_between_the_edges_given(
    params: Tree,
    args: Tree,
    path: Seq<char>,
    n: int,
    g: Rect,
    call: CallView,
    blocks: Vec<Block>,
    turn: TurnView,
)
    requires
        calls(params, "extract_region_text"@, args, path),
        is_number(args.get("page"@), n),
        i32::MIN <= n <= i32::MAX,
        float_arg_spec(args, "x0"@) == Ok::<Single, Seq<char>>(g.x0),
        float_arg_spec(args, "y0"@) == Ok::<Single, Seq<char>>(g.y0),
        float_arg_spec(args, "x1"@) == Ok::<Single, Seq<char>>(g.x1),
        float_arg_spec(args, "y1"@) == Ok::<Single, Seq<char>>(g.y1),
        opens_to(params, TurnView::Ask(call)),
        follows(call, Answer::Blocks(Ok(blocks)), turn),
    ensures
        ends_with_text(turn, trim_spec(text_in(blocks@, g))),
{
    lemma_opened(params, args, path, Tool::ExtractRegionText, TurnView::Ask(call));
    law_page_is_the_number_given(args, n);
    law_answers_hold_what_they_are_made_of(trim_spec(text_in(blocks@, g)), seq![], seq![]);
}

/// `get_page_links` lists every link of the page that is named, in its place, with its own
/// address and edges.
pub proof fn law_links_are_listed_as_they_are(
    params: Tree,
    args: Tree,
    path: Seq<char>,
    n: int,
    call: CallView,
    links: Vec<Link>,
    turn: TurnView,
)
    requires
        calls(params, "get_page_links"@, args, path),
        is_number(args.get("page"@), n),
        i32::MIN <= n <= i32::MAX,
        opens_to(params, TurnView::Ask(call)),
        follows(call, Answer::Links(Ok(links)), turn),
    ensures
        turn matches TurnView::Ask(next) && need_spec(next) matches NeedView::PrettyText { value }
            && {
            &&& has_members(value, 3)
            &&& is_number(value.get("page"@), n)
            &&& is_number(value.get("link_count"@), links@.len() as int)
            &&& value.get("links"@) matches Some(Tree::Array(listed)) && listed.len()
                == links@.len() && (forall|i: int|
                0 <= i < links@.len() ==> tells_link(#[trigger] listed[i], links@[i]))
        },
{
    lemma_opened(params, args, path, Tool::GetPageLinks, TurnView::Ask(call));
    law_page_is_the_number_given(args, n);
    lemma_links(n as i32, links);
}

proof fn lemma_links(page: i32, links: Vec<Link>)
    ensures
        ({
            let value = tool_get_page_links_spec(page, links@);
            &&& has_members(value, 3)
            &&& is_number(value.get("page"@), page as int)
            &&& is_number(value.get("link_count"@), links@.len() as int)
            &&& value.get("links"@) matches Some(Tree::Array(listed)) && listed.len()
                == links@.len() && (forall|i: int|
                0 <= i < links@.len() ==> tells_link(#[trigger] listed[i], links@[i]))
        }),
{
    let value = tool_get_page_links_spec(page, links@);
    reveal_strlit("page");
    reveal_strlit("link_count");
    reveal_strlit("links");
    assert("page"@.len() == 4 && "link_count"@.len() == 10 && "links"@.len() == 5);
    reveal_with_fuel(find, 4);
    law_integers_are_shown(page as int);
    assert(links@.len() == links.len());
    law_integers_are_shown(links@.len() as int);
    let listed = value.get("links"@)->0->Array_0;
    assert forall|i: int| 0 <= i < links@.len() implies tells_link(
        #[trigger] listed[i],
        links@[i],
    ) by {
        lemma_tells_link(links@[i]);
    }
}

/// Whether an entry says of a link what it is.
pub open spec fn tells_link(t: Tree, link: Link) -> bool {
    &&& has_members(t, 2)
    &&& is_text(t.get("uri"@), link.uri@)
    &&& is_box(t.get("bbox"@), link.bounds.x0, link.bounds.y0, link.bounds.x1, link.bounds.y1)
}

proof fn lemma_tells_link(link: Link)
    ensures
        tells_link(link_tree(link), link),
{
    law_boxes_are_shown(link.bounds.x0, link.bounds.y0, link.bounds.x1, link.bounds.y1);
    reveal_strlit("uri");
    reveal_strlit("bbox");
    assert("uri"@.len() == 3 && "bbox"@.len() == 4);
    reveal_with_fuel(find, 3);
}

/// Whether an entry says of a bookmark what it is: its title, its address or null, the page
/// it leads to if it leads to one, and the entries under it if it has any and is not too
/// deep.
pub open spec fn tells_bookmark(t: Tree, item: OutlineItem, depth: nat) -> bool {
    let below = item.down@.len() > 0 && depth < 100;
    &&& has_members(
        t,
        2 + (if item.page is Some {
            1int
        } else {
            0
        }) + (if below {
            1int
        } else {
            0
        }),
    )
    &&& is_text(t.get("title"@), item.title@)
    &&& match item.uri {
        Some(u) => is_text(t.get("uri"@), u@),
        None => t.get("uri"@) == Some(Tree::Null),
    }
    &&& match item.page {
        Some(p) => is_number(t.get("page"@), p as int),
        None => t.get("page"@) is None,
    }
    &&& if below {
        t.get("children"@) == Some(Tree::Array(entries(item.down@, (depth + 1) as nat)))
    } else {
        t.get("children"@) is None
    }
}

/// The entries of a table of contents are listed at every depth, each in its place, and
/// each says what it is.
pub proof fn law_bookmarks_are_listed_as_they_are(items: Seq<OutlineItem>, depth: nat)
    ensures
        entries(items, depth).len() == items.len(),
        forall|i: int|
            0 <= i < items.len() ==> tells_bookmark(
                #[trigger] entries(items, depth)[i],
                items[i],
                depth,
            ),
{
    assert forall|i: int| 0 <= i < items.len() implies tells_bookmark(
        #[trigger] entries(items, depth)[i],
        items[i],
        depth,
    ) by {
        lemma_tells_bookmark(items[i], depth);
        assert(entries(items, depth)[i] == entry_tree(items[i], depth));
    }
}

proof fn lemma_tells_bookmark(item: OutlineItem, depth: nat)
    ensures
        tells_bookmark(entry_tree(item, depth), item, depth),
{
    reveal_strlit("title");
    reveal_strlit("uri");
    reveal_strlit("page");
    reveal_strlit("children");
    assert("title"@.len() == 5 && "uri"@.len() == 3 && "page"@.len() == 4 && "children"@.len()
        == 8);
    reveal_with_fuel(find, 6);
}

/// `get_outline` shows the whole table of contents.
pub proof fn law_outline_is_shown_whole(
    params: Tree,
    args: Tree,
    path: Seq<char>,
    call: CallView,
    items: Vec<OutlineItem>,
    turn: TurnView,
)
    requires
        calls(params, "get_outline"@, args, path),
        opens_to(params, TurnView::Ask(call)),
        follows(call, Answer::Outline(Ok(items)), turn),
    ensures
        turn matches TurnView::Ask(next) && need_spec(next) matches NeedView::PrettyText { value }
            && value matches Tree::Array(listed) && listed.len() == items@.len() && (forall|i: int|
            0 <= i < items@.len() ==> tells_bookmark(#[trigger] listed[i], items@[i], 0)),
{
    lemma_opened(params, args, path, Tool::GetOutline, TurnView::Ask(call));
    law_bookmarks_are_listed_as_they_are(items@, 0);
}

/// Whether an entry says of a page what it is: its number and its size.
pub open spec fn tells_page(t: Tree, page: int, b: Rect) -> bool {
    &&& has_members(t, 3)
    &&& is_number(t.get("page"@), page)
    &&& is_coordinate(t.get("width"@), b.x1.sub_spec(b.x0))
    &&& is_coordinate(t.get("height"@), b.y1.sub_spec(b.y0))
}

proof fn lemma_tells_page(page: nat, b: Rect)
    requires
        page <= u64::MAX,
    ensures
        tells_page(page_size_tree(page, b), page as int, b),
{
    law_integers_are_shown(page as int);
    law_coordinates_are_shown(b.x1.sub_spec(b.x0));
    law_coordinates_are_shown(b.y1.sub_spec(b.y0));
    reveal_strlit("page");
    reveal_strlit("width");
    reveal_strlit("height");
    assert("page"@.len() == 4 && "width"@.len() == 5 && "height"@.len() == 6);
    reveal_with_fuel(find, 4);
}

/// The list of pages grows by one entry, at its end, with each page that could be read,
/// and by none with a page that could not; the entry has the number and the size of the
/// page.
pub proof fn law_pages_are_listed_one_by_one(pages: Seq<Option<Rect>>, page: Option<Rect>)
    requires
        pages.len() <= u64::MAX,
    ensures
        page_sizes(seq![]).len() == 0,
        match page {
            Some(b) => exists|t: Tree|
                page_sizes(pages.push(page)) == #[trigger] page_sizes(pages).push(t) && tells_page(
                    t,
                    pages.len() as int,
                    b,
                ),
            None => page_sizes(pages.push(page)) == page_sizes(pages),
        },
{
    assert(pages.push(page).drop_last() =~= pages);
    if let Some(b) = page {
        lemma_tells_page(pages.len(), b);
        assert(page_sizes(pages.push(page)) == page_sizes(pages).push(
            page_size_tree(pages.len(), b),
        ));
    }
}

/// `get_info` shows each fact about the document under its own name, and the list of its
/// pages.
pub proof fn law_facts_are_shown_as_they_are(
    params: Tree,
    args: Tree,
    path: Seq<char>,
    call: CallView,
    info: DocumentInfo,
    turn: TurnView,
)
    requires
        calls(params, "get_info"@, args, path),
        opens_to(params, TurnView::Ask(call)),
        follows(call, Answer::Info(Ok(info)), turn),
    ensures
        turn matches TurnView::Ask(next) && need_spec(next) matches NeedView::PrettyText { value }
            && {
            &&& has_members(value, 8)
            &&& is_number(value.get("page_count"@), info.page_count as int)
            &&& is_text(value.get("title"@), info.title@)
            &&& is_text(value.get("author"@), info.author@)
            &&& is_text(value.get("subject"@), info.subject@)
            &&& is_text(value.get("keywords"@), info.keywords@)
            &&& is_text(value.get("creator"@), info.creator@)
            &&& is_text(value.get("producer"@), info.producer@)
            &&& value.get("pages"@) == Some(Tree::Array(page_sizes(info.pages@)))
        },
{
    lemma_opened(params, args, path, Tool::GetInfo, TurnView::Ask(call));
    law_integers_are_shown(info.page_count as int);
    lemma_facts(info);
}

proof fn lemma_facts(info: DocumentInfo)
    ensures
        ({
            let value = tool_get_info_spec(info);
            &&& has_members(value, 8)
            &&& value.get("page_count"@) == Some(int_tree(info.page_count as int))
            &&& is_text(value.get("title"@), info.title@)
            &&& is_text(value.get("author"@), info.author@)
            &&& is_text(value.get("subject"@), info.subject@)
            &&& is_text(value.get("keywords"@), info.keywords@)
            &&& is_text(value.get("creator"@), info.creator@)
            &&& is_text(value.get("producer"@), info.producer@)
            &&& value.get("pages"@) == Some(Tree::Array(page_sizes(info.pages@)))
        }),
{
    reveal_strlit("page_count");
    reveal_strlit("title");
    reveal_strlit("author");
    reveal_strlit("subject");
    reveal_strlit("keywords");
    reveal_strlit("creator");
    reveal_strlit("producer");
    reveal_strlit("pages");
    assert("page_count"@.len() == 10 && "title"@.len() == 5 && "author"@.len() == 6
        && "subject"@.len() == 7);
    assert("keywords"@.len() == 8 && "creator"@.len() == 7 && "producer"@.len() == 8
        && "pages"@.len() == 5);
    assert("title"@[0] == 't' && "pages"@[0] == 'p');
    assert("subject"@[0] == 's' && "creator"@[0] == 'c');
    assert("keywords"@[0] == 'k' && "producer"@[0] == 'p');
    reveal_with_fuel(find, 9);
}

/// Whether an entry says of a hit where it is: the page, and the box from the least to the
/// greatest x and from the least to the greatest y of its four corners.
pub open spec fn tells_hit(t: Tree, page: i32, q: Quad) -> bool {
    &&& has_members(t, 2)
    &&& is_number(t.get("page"@), page as int)
    &&& !q.ul.x.nan() && !q.ur.x.nan() && !q.ll.x.nan() && !q.lr.x.nan() && !q.ul.y.nan()
        && !q.ur.y.nan() && !q.ll.y.nan() && !q.lr.y.nan() ==> exists|
        x0: Single,
        y0: Single,
        x1: Single,
        y1: Single,
    |
        {
            &&& #[trigger] is_box(t.get("bbox"@), x0, y0, x1, y1)
            &&& is_least(x0, q.ul.x, q.ur.x, q.ll.x, q.lr.x)
            &&& is_least(y0, q.ul.y, q.ur.y, q.ll.y, q.lr.y)
            &&& is_greatest(x1, q.ul.x, q.ur.x, q.ll.x, q.lr.x)
            &&& is_greatest(y1, q.ul.y, q.ur.y, q.ll.y, q.lr.y)
        }
}

proof fn lemma_tells_hit(page: i32, q: Quad)
    ensures
        tells_hit(match_tree(page, q), page, q),
{
    let (x0, y0, x1, y1) = quad_bbox_spec(q);
    law_boxes_are_shown(x0, y0, x1, y1);
    law_integers_are_shown(page as int);
    reveal_strlit("page");
    reveal_strlit("bbox");
    assert("page"@[0] == 'p' && "bbox"@[0] == 'b');
    reveal_with_fuel(find, 3);
    assert(is_box(match_tree(page, q).get("bbox"@), x0, y0, x1, y1));
    if !q.ul.x.nan() && !q.ur.x.nan() && !q.ll.x.nan() && !q.lr.x.nan() && !q.ul.y.nan()
        && !q.ur.y.nan() && !q.ll.y.nan() && !q.lr.y.nan() {
        law_bounding_box_is_tight(q);
    }
}

/// Whether a list of matches is another one with an entry for each hit of a page at its
/// end, in the order of the hits.
pub open spec fn adds_hits(new: Seq<Tree>, before: Seq<Tree>, page: i32, hits: Seq<Quad>) -> bool {
    &&& new.len() == before.len() + hits.len()
    &&& forall|i: int| 0 <= i < before.len() ==> #[trigger] new[i] == before[i]
    &&& forall|i: int|
        0 <= i < hits.len() ==> tells_hit(#[trigger] new[before.len() + i], page, hits[i])
}

proof fn lemma_adds_hits(before: Seq<Tree>, page: i32, hits: Seq<Quad>)
    ensures
        adds_hits(before + page_matches(page, hits), before, page, hits),
{
    let new = before + page_matches(page, hits);
    assert forall|i: int| 0 <= i < hits.len() implies tells_hit(
        #[trigger] new[before.len() + i],
        page,
        hits[i],
    ) by {
        lemma_tells_hit(page, hits[i]);
        assert(new[before.len() + i] == page_matches(page, hits)[i]);
    }
}

/// Whether a value shows the result of a search: the query, the matches and their number,
/// and that it is truncated, if it is.
pub open spec fn shows_search(
    value: Tree,
    query: Seq<char>,
    found: Seq<Tree>,
    truncated: bool,
) -> bool {
    &&& has_members(
        value,
        if truncated {
            4
        } else {
            3
        },
    )
    &&& is_text(value.get("query"@), query)
    &&& found.len() <= u64::MAX ==> is_number(value.get("match_count"@), found.len() as int)
    &&& value.get("matches"@) == Some(Tree::Array(found))
    &&& if truncated {
        value.get("truncated"@) == Some(Tree::Bool(true))
    } else {
        value.get("truncated"@) is None
    }
}

proof fn lemma_shows_search(query: Seq<char>, found: Seq<Tree>, truncated: bool)
    ensures
        shows_search(search_tree(query, found, truncated), query, found, truncated),
{
    if found.len() <= u64::MAX {
        law_integers_are_shown(found.len() as int);
    }
    reveal_strlit("query");
    reveal_strlit("match_count");
    reveal_strlit("matches");
    reveal_strlit("truncated");
    assert("query"@.len() == 5 && "match_count"@.len() == 11 && "matches"@.len() == 7
        && "truncated"@.len() == 9);
    reveal_with_fuel(find, 6);
}

/// Whether a turn of a search comes next: it asks for the hits on `page` of the same query,
/// with what was found so far, and will go on to the page `last`.
pub open spec fn searches_on(
    turn: TurnView,
    query: Seq<char>,
    page: int,
    last: int,
    found: Seq<Tree>,
    truncated: bool,
) -> bool {
    turn matches TurnView::Ask(call) && {
        &&& need_spec(call) == (NeedView::Hits { page: page as i32, query, limit: 500 })
        &&& call == (CallView::Hits {
            search: SearchView {
                query,
                page: page as i32,
                last: last as i32,
                matches: found,
                truncated,
            },
        })
    }
}

/// `search` asks for the number of pages, and then for the hits of the query on the page
/// that is named, or else on the first page of all; a document without pages has no
/// matches.
pub proof fn law_search_starts_where_it_is_told(
    params: Tree,
    args: Tree,
    path: Seq<char>,
    query: Seq<char>,
    n: int,
    call: CallView,
    count: i32,
    turn: TurnView,
)
    requires
        calls(params, "search"@, args, path),
        is_text(args.get("query"@), query),
        opens_to(params, TurnView::Ask(call)),
        follows(call, Answer::Count(Ok(count)), turn),
    ensures
        need_spec(call) == NeedView::PageCount,
        is_number(args.get("page"@), n) && i32::MIN <= n <= i32::MAX ==> searches_on(
            turn,
            query,
            n,
            n,
            seq![],
            false,
        ),
        !some_integer(args.get("page"@)) && count > 0 ==> searches_on(
            turn,
            query,
            0,
            count - 1,
            seq![],
            false,
        ),
        !some_integer(args.get("page"@)) && count <= 0 ==> (turn matches TurnView::Ask(next)
            && need_spec(next) matches NeedView::PrettyText { value } && shows_search(
            value,
            query,
            seq![],
            false,
        )),
{
    lemma_opened(params, args, path, Tool::Search, TurnView::Ask(call));
    if is_number(args.get("page"@), n) {
        law_page_is_the_number_given(args, n);
    }
    lemma_shows_search(query, seq![], false);
}

/// A search that got the hits on a page has them all, after those of the pages before; it
/// goes on to the next page, or shows what it found after the last. It is truncated just
/// where some page has 500 hits or more.
pub proof fn law_search_goes_page_by_page(
    query: Seq<char>,
    page: i32,
    last: i32,
    found: Seq<Tree>,
    truncated: bool,
    call: CallView,
    hits: Vec<Quad>,
    turn: TurnView,
)
    requires
        searches_on(TurnView::Ask(call), query, page as int, last as int, found, truncated),
        follows(call, Answer::Hits(Ok(hits)), turn),
    ensures
        exists|new: Seq<Tree>|
            {
                &&& #[trigger] adds_hits(new, found, page, hits@)
                &&& page < last ==> searches_on(
                    turn,
                    query,
                    page + 1,
                    last as int,
                    new,
                    truncated || hits@.len() >= 500,
                )
                &&& page >= last ==> (turn matches TurnView::Ask(next) && need_spec(
                    next,
                ) matches NeedView::PrettyText { value } && shows_search(
                    value,
                    query,
                    new,
                    truncated || hits@.len() >= 500,
                ))
            },
{
    let new = found + page_matches(page, hits@);
    lemma_adds_hits(found, page, hits@);
    lemma_shows_search(query, new, truncated || hits@.len() >= 500);
    assert(adds_hits(new, found, page, hits@));
}

/// Whether `end` is what a search comes to, given the hits on one page after the other.
pub open spec fn search_comes_to(turn: TurnView, pages: Seq<Vec<Quad>>, end: TurnView) -> bool
    decreases pages.len(),
{
    if pages.len() == 0 {
        turn == end
    } else {
        turn matches TurnView::Ask(call) && exists|next: TurnView| #[trigger]
            follows(call, Answer::Hits(Ok(pages[0])), next) && search_comes_to(
                next,
                pages.drop_first(),
                end,
            )
    }
}

/// The number of hits on the first `i` pages.
pub open spec fn hits_before(pages: Seq<Vec<Quad>>, i: int) -> int
    decreases i,
{
    if i <= 0 {
        0
    } else {
        pages[0]@.len() + hits_before(pages.drop_first(), i - 1)
    }
}

/// Whether a list of matches is another one with an entry for each hit on each page at its
/// end, in the order of the pages and of the hits. The first page has the number `first`.
pub open spec fn lists_hits(
    new: Seq<Tree>,
    before: Seq<Tree>,
    first: int,
    pages: Seq<Vec<Quad>>,
) -> bool {
    &&& new.len() == before.len() + hits_before(pages, pages.len() as int)
    &&& forall|i: int| 0 <= i < before.len() ==> #[trigger] new[i] == before[i]
    &&& forall|i: int, j: int|
        0 <= i < pages.len() && 0 <= j < pages[i]@.len() ==> tells_hit(
            new[before.len() + hits_before(pages, i) + j],
            (first + i) as i32,
            #[trigger] pages[i]@[j],
        )
}

/// Whether some page has so many hits that there may be more.
pub open spec fn some_page_is_full(pages: Seq<Vec<Quad>>) -> bool {
    exists|i: int| 0 <= i < pages.len() && (#[trigger] pages[i])@.len() >= 500
}

/// The hits on a page and those on the pages after it are the hits on all of them.
proof fn lemma_lists_hits(
    new: Seq<Tree>,
    middle: Seq<Tree>,
    before: Seq<Tree>,
    first: i32,
    pages: Seq<Vec<Quad>>,
)
    requires
        pages.len() > 0,
        first + pages.len() - 1 <= i32::MAX,
        adds_hits(middle, before, first, pages[0]@),
        lists_hits(new, middle, first + 1, pages.drop_first()),
    ensures
        lists_hits(new, before, first as int, pages),
{
    let rest = pages.drop_first();
    assert forall|i: int| 0 <= i < before.len() implies #[trigger] new[i] == before[i] by {
        assert(middle[i] == before[i]);
    }
    assert forall|i: int, j: int|
        0 <= i < pages.len() && 0 <= j < pages[i]@.len() implies tells_hit(
        new[before.len() + hits_before(pages, i) + j],
        (first + i) as i32,
        #[trigger] pages[i]@[j],
    ) by {
        if i == 0 {
            assert(new[before.len() + j] == middle[before.len() + j]);
        } else {
            assert(rest[i - 1] == pages[i]);
            assert(tells_hit(
                new[middle.len() + hits_before(rest, i - 1) + j],
                (first + 1 + (i - 1)) as i32,
                rest[i - 1]@[j],
            ));
        }
    }
}

/// A search lists every hit on every page from the one it is on up to its last, each in its
/// place, with its own page and its own box; it says that it is truncated just where some
/// page is full.
pub proof fn law_search_lists_every_hit_where_it_is(
    query: Seq<char>,
    first: i32,
    last: i32,
    found: Seq<Tree>,
    truncated: bool,
    turn: TurnView,
    pages: Seq<Vec<Quad>>,
    end: TurnView,
)
    requires
        searches_on(turn, query, first as int, last as int, found, truncated),
        first <= last,
        pages.len() == last - first + 1,
        search_comes_to(turn, pages, end),
    ensures
        end matches TurnView::Ask(next) && need_spec(next) matches NeedView::PrettyText { value }
            && exists|all: Seq<Tree>| #[trigger]
            lists_hits(all, found, first as int, pages) && shows_search(
                value,
                query,
                all,
                truncated || some_page_is_full(pages),
            ),
    decreases pages.len(),
{
    let call = turn->Ask_0;
    let rest = pages.drop_first();
    let next = choose|next: TurnView| #[trigger]
        follows(call, Answer::Hits(Ok(pages[0])), next) && search_comes_to(next, rest, end);
    law_search_goes_page_by_page(query, first, last, found, truncated, call, pages[0], next);
    let full = truncated || pages[0]@.len() >= 500;
    let new = choose|new: Seq<Tree>|
        {
            &&& #[trigger] adds_hits(new, found, first, pages[0]@)
            &&& first < last ==> searches_on(next, query, first + 1, last as int, new, full)
            &&& first >= last ==> (next matches TurnView::Ask(shown) && need_spec(
                shown,
            ) matches NeedView::PrettyText { value } && shows_search(value, query, new, full))
        };
    assert(some_page_is_full(pages) == (pages[0]@.len() >= 500 || some_page_is_full(rest))) by {
        if some_page_is_full(rest) {
            let i = choose|i: int| 0 <= i < rest.len() && (#[trigger] rest[i])@.len() >= 500;
            assert(pages[i + 1] == rest[i]);
        }
        if some_page_is_full(pages) && pages[0]@.len() < 500 {
            let i = choose|i: int| 0 <= i < pages.len() && (#[trigger] pages[i])@.len() >= 500;
            assert(rest[i - 1] == pages[i]);
        }
    }
    if first < last {
        law_search_lists_every_hit_where_it_is(
            query,
            (first + 1) as i32,
            last,
            new,
            full,
            next,
            rest,
            end,
        );
        let value = need_spec(end->Ask_0)->value;
        let all = choose|all: Seq<Tree>| #[trigger]
            lists_hits(all, new, first + 1, rest) && shows_search(
                value,
                query,
                all,
                full || some_page_is_full(rest),
            );
        lemma_lists_hits(all, new, found, first, pages);
    } else {
        assert(rest.len() == 0);
        assert(lists_hits(new, new, first + 1, rest));
        lemma_lists_hits(new, new, found, first, pages);
    }
}

} // verus!
