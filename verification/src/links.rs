//! The hyperlinks of a page.
use crate::content::{bounds_tree, rect_json};
use crate::document::{Link, Rect};
use crate::json::{find, int_tree, items_view, Json, Tree};
use vstd::prelude::*;

verus! {

/// What is said of a link.
pub open spec fn link_tree(link: Link) -> Tree {
    Tree::Object(seq![("uri"@, Tree::Text(link.uri@)), ("bbox"@, bounds_tree(link.bounds))])
}

/// What is said of the links of a page, in their order.
pub open spec fn tool_get_page_links_spec(page: i32, links: Seq<Link>) -> Tree {
    Tree::Object(
        seq![
            ("page"@, int_tree(page as int)),
            ("link_count"@, int_tree(links.len() as int)),
            ("links"@, Tree::Array(Seq::new(links.len(), |i: int| link_tree(links[i])))),
        ],
    )
}

/// What is said of a link.
fn link_json(link: &Link) -> (r: Json)
    ensures
        r@ == link_tree(*link),
{
    let b: Rect = link.bounds;
    let r: Json = Json::object().with("uri", Json::text(link.uri.as_str())).with(
        "bbox",
        rect_json(b.x0, b.y0, b.x1, b.y1),
    );
    assert(r@->Object_0 =~= link_tree(*link)->Object_0);
    r
}

/// What is said of the links of a page.
pub fn tool_get_page_links(page: i32, links: &Vec<Link>) -> (r: Json)
    ensures
        r@ == tool_get_page_links_spec(page, links@),
{
    let mut out: Vec<Json> = Vec::new();
    let mut i: usize = 0;
    while i < links.len()
        invariant
            i <= links@.len(),
            out@.len() == i,
            forall|j: int| 0 <= j < i ==> #[trigger] out@[j]@ == link_tree(links@[j]),
        decreases links@.len() - i,
    {
        out.push(link_json(&links[i]));
        i += 1;
    }
    assert(items_view(out@) =~= Seq::new(links@.len(), |i: int| link_tree(links@[i])));
    let r: Json = Json::object().with("page", Json::integer(page as i64)).with(
        "link_count",
        Json::unsigned(links.len() as u64),
    ).with("links", Json::array(out));
    assert(r@->Object_0 =~= tool_get_page_links_spec(page, links@)->Object_0);
    r
}

/// Every link of a page is listed, in its place, and the count is their number.
pub proof fn law_every_link_is_listed(page: i32, links: Seq<Link>)
    ensures
        tool_get_page_links_spec(page, links).get("link_count"@) == Some(
            int_tree(links.len() as int),
        ),
        tool_get_page_links_spec(page, links).get("links"@) matches Some(Tree::Array(listed))
            && listed.len() == links.len() && forall|i: int|
            0 <= i < links.len() ==> #[trigger] listed[i] == link_tree(links[i]),
{
    reveal_strlit("page");
    reveal_strlit("link_count");
    reveal_strlit("links");
    assert("page"@.len() == 4 && "link_count"@.len() == 10 && "links"@.len() == 5);
    reveal_with_fuel(find, 4);
}

} // verus!
