//! The blocks of a page, and the text in them.
use crate::content::{bounds_tree, rect_json, text_content, text_content_spec};
use crate::document::{Block, BlockKind, Point, Rect, TextChar};
use crate::json::{find, int_tree, items_view, Json, Tree};
use crate::text::{
    ink, law_trim_keeps_the_ink, lemma_part_ink, lemma_part_join, lemma_part_push, part_of, trim,
    trim_end, trim_end_spec, trim_spec,
};
use vstd::prelude::*;

verus! {

/// The characters of a line.
pub open spec fn line_text(line: Seq<TextChar>) -> Seq<char>
    decreases line.len(),
{
    if line.len() == 0 {
        seq![]
    } else {
        let before = line_text(line.drop_last());
        match line.last().ch {
            Some(c) => before.push(c),
            None => before,
        }
    }
}

/// The lines of a block, each with a line break at its end.
pub open spec fn block_text(lines: Seq<Vec<TextChar>>) -> Seq<char>
    decreases lines.len(),
{
    if lines.len() == 0 {
        seq![]
    } else {
        (block_text(lines.drop_last()) + line_text(lines.last()@)).push('\n')
    }
}

/// What is said of a block.
pub open spec fn block_tree(b: Block) -> Tree {
    match b.kind {
        BlockKind::Text => Tree::Object(
            seq![
                ("type"@, Tree::Text("text"@)),
                ("bbox"@, bounds_tree(b.bounds)),
                ("text"@, Tree::Text(trim_end_spec(block_text(b.lines@)))),
            ],
        ),
        BlockKind::Image => Tree::Object(
            seq![("type"@, Tree::Text("image"@)), ("bbox"@, bounds_tree(b.bounds))],
        ),
        BlockKind::Other(name) => Tree::Object(
            seq![("type"@, Tree::Text(name@)), ("bbox"@, bounds_tree(b.bounds))],
        ),
    }
}

/// What is said of the blocks of a page.
pub open spec fn tool_get_text_blocks_spec(page: i32, blocks: Seq<Block>) -> Tree {
    Tree::Object(
        seq![
            ("page"@, int_tree(page as int)),
            ("block_count"@, int_tree(blocks.len() as int)),
            ("blocks"@, Tree::Array(Seq::new(blocks.len(), |i: int| block_tree(blocks[i])))),
        ],
    )
}

/// Append the characters of a line.
fn push_line(text: &mut String, line: &Vec<TextChar>)
    ensures
        final(text)@ == old(text)@ + line_text(line@),
{
    let ghost before = text@;
    let mut i: usize = 0;
    assert(text@ =~= before + line_text(line@.take(0)));
    while i < line.len()
        invariant
            i <= line@.len(),
            text@ == before + line_text(line@.take(i as int)),
        decreases line@.len() - i,
    {
        assert(line@.take(i + 1).drop_last() =~= line@.take(i as int));
        let ghost so_far = line_text(line@.take(i as int));
        if let Some(c) = line[i].ch {
            text.push(c);
            assert(text@ =~= before + so_far.push(c));
        }
        i += 1;
    }
    assert(line@.take(line@.len() as int) =~= line@);
}

/// The text of a block.
fn text_of(lines: &Vec<Vec<TextChar>>) -> (r: String)
    ensures
        r@ == block_text(lines@),
{
    let mut text: String = String::new();
    let mut i: usize = 0;
    assert(text@ =~= block_text(lines@.take(0)));
    while i < lines.len()
        invariant
            i <= lines@.len(),
            text@ == block_text(lines@.take(i as int)),
        decreases lines@.len() - i,
    {
        assert(lines@.take(i + 1).drop_last() =~= lines@.take(i as int));
        push_line(&mut text, &lines[i]);
        text.push('\n');
        i += 1;
    }
    assert(lines@.take(lines@.len() as int) =~= lines@);
    text
}

/// What is said of a block.
fn block_json(b: &Block) -> (r: Json)
    ensures
        r@ == block_tree(*b),
{
    let bbox: Json = rect_json(b.bounds.x0, b.bounds.y0, b.bounds.x1, b.bounds.y1);
    let r: Json = match &b.kind {
        BlockKind::Text => {
            let text: String = text_of(&b.lines);
            Json::object().with("type", Json::text("text")).with("bbox", bbox).with(
                "text",
                Json::Text(trim_end(text.as_str())),
            )
        },
        BlockKind::Image => Json::object().with("type", Json::text("image")).with("bbox", bbox),
        BlockKind::Other(name) => Json::object().with("type", Json::text(name.as_str())).with(
            "bbox",
            bbox,
        ),
    };
    assert(r@->Object_0 =~= block_tree(*b)->Object_0);
    r
}

/// What is said of the blocks of a page.
pub fn tool_get_text_blocks(page: i32, blocks: &Vec<Block>) -> (r: Json)
    ensures
        r@ == tool_get_text_blocks_spec(page, blocks@),
{
    let mut out: Vec<Json> = Vec::new();
    let mut i: usize = 0;
    while i < blocks.len()
        invariant
            i <= blocks@.len(),
            out@.len() == i,
            forall|j: int| 0 <= j < i ==> #[trigger] out@[j]@ == block_tree(blocks@[j]),
        decreases blocks@.len() - i,
    {
        out.push(block_json(&blocks[i]));
        i += 1;
    }
    assert(items_view(out@) =~= Seq::new(blocks@.len(), |i: int| block_tree(blocks@[i])));
    let r: Json = Json::object().with("page", Json::integer(page as i64)).with(
        "block_count",
        Json::unsigned(blocks.len() as u64),
    ).with("blocks", Json::array(out));
    assert(r@->Object_0 =~= tool_get_text_blocks_spec(page, blocks@)->Object_0);
    r
}

/// Whether a point lies in a region, its edges included.
pub open spec fn inside(p: Point, g: Rect) -> bool {
    g.x0.le_spec(p.x) && p.x.le_spec(g.x1) && g.y0.le_spec(p.y) && p.y.le_spec(g.y1)
}

/// Whether a point lies in a region.
fn is_inside(p: Point, g: Rect) -> (r: bool)
    ensures
        r == inside(p, g),
{
    g.x0.le(p.x) && p.x.le(g.x1) && g.y0.le(p.y) && p.y.le(g.y1)
}

/// The characters of a line that stand in a region.
pub open spec fn line_in(line: Seq<TextChar>, g: Rect) -> Seq<char>
    decreases line.len(),
{
    if line.len() == 0 {
        seq![]
    } else {
        let before = line_in(line.drop_last(), g);
        match line.last().ch {
            Some(c) => if inside(line.last().origin, g) {
                before.push(c)
            } else {
                before
            },
            None => before,
        }
    }
}

/// The lines of a block that have a character in a region, each with a line break at
/// its end.
pub open spec fn lines_in(lines: Seq<Vec<TextChar>>, g: Rect) -> Seq<char>
    decreases lines.len(),
{
    if lines.len() == 0 {
        seq![]
    } else {
        let before = lines_in(lines.drop_last(), g);
        let line = line_in(lines.last()@, g);
        if line.len() > 0 {
            (before + line).push('\n')
        } else {
            before
        }
    }
}

/// The text of a page in a region: that of its text blocks, in their order.
pub open spec fn text_in(blocks: Seq<Block>, g: Rect) -> Seq<char>
    decreases blocks.len(),
{
    if blocks.len() == 0 {
        seq![]
    } else {
        let before = text_in(blocks.drop_last(), g);
        if blocks.last().kind is Text {
            before + lines_in(blocks.last().lines@, g)
        } else {
            before
        }
    }
}

/// The characters of a line that stand in a region.
fn line_within(line: &Vec<TextChar>, g: Rect) -> (r: (String, bool))
    ensures
        r.0@ == line_in(line@, g),
        r.1 == (line_in(line@, g).len() > 0),
{
    let mut text: String = String::new();
    let mut any: bool = false;
    let mut i: usize = 0;
    assert(text@ =~= line_in(line@.take(0), g));
    while i < line.len()
        invariant
            i <= line@.len(),
            text@ == line_in(line@.take(i as int), g),
            any == (text@.len() > 0),
        decreases line@.len() - i,
    {
        assert(line@.take(i + 1).drop_last() =~= line@.take(i as int));
        if is_inside(line[i].origin, g) {
            if let Some(c) = line[i].ch {
                text.push(c);
                any = true;
            }
        }
        i += 1;
    }
    assert(line@.take(line@.len() as int) =~= line@);
    (text, any)
}

/// The lines of a block that have a character in a region.
fn lines_within(lines: &Vec<Vec<TextChar>>, g: Rect) -> (r: String)
    ensures
        r@ == lines_in(lines@, g),
{
    let mut text: String = String::new();
    let mut i: usize = 0;
    assert(text@ =~= lines_in(lines@.take(0), g));
    while i < lines.len()
        invariant
            i <= lines@.len(),
            text@ == lines_in(lines@.take(i as int), g),
        decreases lines@.len() - i,
    {
        assert(lines@.take(i + 1).drop_last() =~= lines@.take(i as int));
        let (line, any): (String, bool) = line_within(&lines[i], g);
        if any {
            text = text.concat(line.as_str());
            text.push('\n');
        }
        i += 1;
    }
    assert(lines@.take(lines@.len() as int) =~= lines@);
    text
}

/// The text of a page in a region, without the white space at either end.
pub fn tool_extract_region_text(blocks: &Vec<Block>, g: Rect) -> (r: Json)
    ensures
        r@ == text_content_spec(trim_spec(text_in(blocks@, g))),
{
    let mut text: String = String::new();
    let mut i: usize = 0;
    assert(text@ =~= text_in(blocks@.take(0), g));
    while i < blocks.len()
        invariant
            i <= blocks@.len(),
            text@ == text_in(blocks@.take(i as int), g),
        decreases blocks@.len() - i,
    {
        assert(blocks@.take(i + 1).drop_last() =~= blocks@.take(i as int));
        if let BlockKind::Text = &blocks[i].kind {
            let lines: String = lines_within(&blocks[i].lines, g);
            text = text.concat(lines.as_str());
        }
        i += 1;
    }
    assert(blocks@.take(blocks@.len() as int) =~= blocks@);
    text_content(trim(text.as_str()).as_str())
}

/// A region takes a whole line where it holds every character of it, and nothing of a
/// line where it holds none.
pub proof fn law_region_takes_what_it_holds(line: Seq<TextChar>, g: Rect)
    ensures
        (forall|i: int| 0 <= i < line.len() ==> inside(#[trigger] line[i].origin, g)) ==> line_in(
            line,
            g,
        ) == line_text(line),
        (forall|i: int| 0 <= i < line.len() ==> !inside(#[trigger] line[i].origin, g)) ==> line_in(
            line,
            g,
        ).len() == 0,
    decreases line.len(),
{
    if line.len() > 0 {
        let rest = line.drop_last();
        law_region_takes_what_it_holds(rest, g);
        assert(forall|i: int| 0 <= i < rest.len() ==> #[trigger] rest[i].origin == line[i].origin);
        assert(line.last().origin == line[line.len() - 1].origin);
    }
}

/// The lines of a block, none of whose characters stands in a region, have no text in it.
proof fn lemma_lines_outside(lines: Seq<Vec<TextChar>>, g: Rect)
    requires
        forall|i: int, j: int|
            0 <= i < lines.len() && 0 <= j < lines[i]@.len() ==> !inside(
                #[trigger] lines[i]@[j].origin,
                g,
            ),
    ensures
        lines_in(lines, g).len() == 0,
    decreases lines.len(),
{
    if lines.len() > 0 {
        let rest = lines.drop_last();
        assert forall|i: int, j: int|
            0 <= i < rest.len() && 0 <= j < rest[i]@.len() implies !inside(
            #[trigger] rest[i]@[j].origin,
            g,
        ) by {
            assert(rest[i] == lines[i]);
            assert(!inside(lines[i]@[j].origin, g));
        }
        lemma_lines_outside(rest, g);
        let last = lines.last()@;
        assert forall|j: int| 0 <= j < last.len() implies !inside(#[trigger] last[j].origin, g) by {
            assert(!inside(lines[lines.len() - 1]@[j].origin, g));
        }
        law_region_takes_what_it_holds(last, g);
    }
}

/// A region in which no character stands has no text.
pub proof fn law_empty_region_has_no_text(blocks: Seq<Block>, g: Rect)
    requires
        forall|b: int, i: int, j: int|
            0 <= b < blocks.len() && 0 <= i < blocks[b].lines@.len() && 0 <= j
                < blocks[b].lines@[i]@.len() ==> !inside(
                #[trigger] blocks[b].lines@[i]@[j].origin,
                g,
            ),
    ensures
        text_in(blocks, g).len() == 0,
        trim_spec(text_in(blocks, g)).len() == 0,
    decreases blocks.len(),
{
    if blocks.len() > 0 {
        let rest = blocks.drop_last();
        assert forall|b: int, i: int, j: int|
            0 <= b < rest.len() && 0 <= i < rest[b].lines@.len() && 0 <= j
                < rest[b].lines@[i]@.len() implies !inside(
            #[trigger] rest[b].lines@[i]@[j].origin,
            g,
        ) by {
            assert(rest[b] == blocks[b]);
            assert(!inside(blocks[b].lines@[i]@[j].origin, g));
        }
        law_empty_region_has_no_text(rest, g);
        let lines = blocks.last().lines@;
        assert forall|i: int, j: int|
            0 <= i < lines.len() && 0 <= j < lines[i]@.len() implies !inside(
            #[trigger] lines[i]@[j].origin,
            g,
        ) by {
            assert(!inside(blocks[blocks.len() - 1].lines@[i]@[j].origin, g));
        }
        lemma_lines_outside(lines, g);
    }
}

/// Every block of a page is listed, in its place, and the count is their number.
pub proof fn law_every_block_is_listed(page: i32, blocks: Seq<Block>)
    ensures
        tool_get_text_blocks_spec(page, blocks).get("block_count"@) == Some(
            int_tree(blocks.len() as int),
        ),
        tool_get_text_blocks_spec(page, blocks).get("blocks"@) matches Some(Tree::Array(listed))
            && listed.len() == blocks.len() && forall|i: int|
            0 <= i < blocks.len() ==> #[trigger] listed[i] == block_tree(blocks[i]),
{
    reveal_strlit("page");
    reveal_strlit("block_count");
    reveal_strlit("blocks");
    assert("page"@.len() == 4 && "block_count"@.len() == 11 && "blocks"@.len() == 6);
    reveal_with_fuel(find, 4);
}

/// The lines of a block that have a character, each with a line break at its end.
pub open spec fn full_lines(lines: Seq<Vec<TextChar>>) -> Seq<char>
    decreases lines.len(),
{
    if lines.len() == 0 {
        seq![]
    } else {
        let before = full_lines(lines.drop_last());
        let line = line_text(lines.last()@);
        if line.len() > 0 {
            (before + line).push('\n')
        } else {
            before
        }
    }
}

/// The text of a page: that of its text blocks, in their order.
pub open spec fn page_text(blocks: Seq<Block>) -> Seq<char>
    decreases blocks.len(),
{
    if blocks.len() == 0 {
        seq![]
    } else {
        let before = page_text(blocks.drop_last());
        if blocks.last().kind is Text {
            before + full_lines(blocks.last().lines@)
        } else {
            before
        }
    }
}

/// The lines of a block, all of whose characters stand in a region, are all in it.
proof fn lemma_lines_inside(lines: Seq<Vec<TextChar>>, g: Rect)
    requires
        forall|i: int, j: int|
            0 <= i < lines.len() && 0 <= j < lines[i]@.len() ==> inside(
                #[trigger] lines[i]@[j].origin,
                g,
            ),
    ensures
        lines_in(lines, g) == full_lines(lines),
    decreases lines.len(),
{
    if lines.len() > 0 {
        let rest = lines.drop_last();
        assert forall|i: int, j: int|
            0 <= i < rest.len() && 0 <= j < rest[i]@.len() implies inside(
            #[trigger] rest[i]@[j].origin,
            g,
        ) by {
            assert(rest[i] == lines[i]);
            assert(inside(lines[i]@[j].origin, g));
        }
        lemma_lines_inside(rest, g);
        let last = lines.last()@;
        assert forall|j: int| 0 <= j < last.len() implies inside(#[trigger] last[j].origin, g) by {
            assert(inside(lines[lines.len() - 1]@[j].origin, g));
        }
        law_region_takes_what_it_holds(last, g);
    }
}

/// A region in which every character stands has all the text of the page.
pub proof fn law_whole_page_has_all_text(blocks: Seq<Block>, g: Rect)
    requires
        forall|b: int, i: int, j: int|
            0 <= b < blocks.len() && 0 <= i < blocks[b].lines@.len() && 0 <= j
                < blocks[b].lines@[i]@.len() ==> inside(
                #[trigger] blocks[b].lines@[i]@[j].origin,
                g,
            ),
    ensures
        text_in(blocks, g) == page_text(blocks),
    decreases blocks.len(),
{
    if blocks.len() > 0 {
        let rest = blocks.drop_last();
        assert forall|b: int, i: int, j: int|
            0 <= b < rest.len() && 0 <= i < rest[b].lines@.len() && 0 <= j
                < rest[b].lines@[i]@.len() implies inside(
            #[trigger] rest[b].lines@[i]@[j].origin,
            g,
        ) by {
            assert(rest[b] == blocks[b]);
            assert(inside(blocks[b].lines@[i]@[j].origin, g));
        }
        law_whole_page_has_all_text(rest, g);
        let lines = blocks.last().lines@;
        assert forall|i: int, j: int|
            0 <= i < lines.len() && 0 <= j < lines[i]@.len() implies inside(
            #[trigger] lines[i]@[j].origin,
            g,
        ) by {
            assert(inside(blocks[blocks.len() - 1].lines@[i]@[j].origin, g));
        }
        lemma_lines_inside(lines, g);
    }
}

/// Whether one region lies in another.
pub open spec fn region_within(small: Rect, large: Rect) -> bool {
    &&& large.x0.le_spec(small.x0) && small.x1.le_spec(large.x1)
    &&& large.y0.le_spec(small.y0) && small.y1.le_spec(large.y1)
}

/// The characters of a line that stand in a region are among those in a larger one.
proof fn lemma_line_grows(line: Seq<TextChar>, small: Rect, large: Rect)
    requires
        region_within(small, large),
    ensures
        part_of(line_in(line, small), line_in(line, large)),
    decreases line.len(),
{
    if line.len() > 0 {
        let rest = line.drop_last();
        lemma_line_grows(rest, small, large);
        if let Some(c) = line.last().ch {
            lemma_part_push(line_in(rest, small), line_in(rest, large), c);
        }
    }
}

/// The lines of a block in a region are among those in a larger one.
proof fn lemma_lines_grow(lines: Seq<Vec<TextChar>>, small: Rect, large: Rect)
    requires
        region_within(small, large),
    ensures
        part_of(lines_in(lines, small), lines_in(lines, large)),
    decreases lines.len(),
{
    if lines.len() > 0 {
        let rest = lines.drop_last();
        let last = lines.last()@;
        let a = lines_in(rest, small);
        let b = lines_in(rest, large);
        lemma_lines_grow(rest, small, large);
        lemma_line_grows(last, small, large);
        lemma_part_join(a, b, line_in(last, small), line_in(last, large));
        lemma_part_push(a + line_in(last, small), b + line_in(last, large), '\n');
        if line_in(last, small).len() == 0 {
            assert(a + line_in(last, small) =~= a);
        }
    }
}

/// The text of a region is part of the text of a region that holds it; so is what is
/// answered, white space aside.
pub proof fn law_larger_region_has_more_text(blocks: Seq<Block>, small: Rect, large: Rect)
    requires
        region_within(small, large),
    ensures
        part_of(text_in(blocks, small), text_in(blocks, large)),
        part_of(
            ink(trim_spec(text_in(blocks, small))),
            ink(trim_spec(text_in(blocks, large))),
        ),
    decreases blocks.len(),
{
    if blocks.len() > 0 {
        let rest = blocks.drop_last();
        let lines = blocks.last().lines@;
        law_larger_region_has_more_text(rest, small, large);
        lemma_lines_grow(lines, small, large);
        lemma_part_join(
            text_in(rest, small),
            text_in(rest, large),
            lines_in(lines, small),
            lines_in(lines, large),
        );
    }
    law_trim_keeps_the_ink(text_in(blocks, small));
    law_trim_keeps_the_ink(text_in(blocks, large));
    lemma_part_ink(text_in(blocks, small), text_in(blocks, large));
}

} // verus!
