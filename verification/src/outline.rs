//! The table of contents of a document.
use crate::document::OutlineItem;
use crate::json::{find, int_tree, items_view, Json, Tree};
use vstd::prelude::*;

verus! {

/// The depth below which entries are left out.
pub const DEPTH_LIMIT: u32 = 100;

/// An optional text as a JSON value.
pub open spec fn uri_tree(uri: Option<String>) -> Tree {
    match uri {
        Some(u) => Tree::Text(u@),
        None => Tree::Null,
    }
}

/// The title, the URI and the page of an entry. An entry without a destination has no
/// page.
pub open spec fn entry_members(item: OutlineItem) -> Seq<(Seq<char>, Tree)> {
    let said = seq![("title"@, Tree::Text(item.title@)), ("uri"@, uri_tree(item.uri))];
    match item.page {
        Some(p) => said.push(("page"@, int_tree(p as int))),
        None => said,
    }
}

/// What is said of an entry at `depth`: its title, URI and page, and the entries under
/// it, if it has any and lies above the limit.
pub open spec fn entry_tree(item: OutlineItem, depth: nat) -> Tree
    decreases DEPTH_LIMIT - depth, 0nat,
{
    if item.down@.len() > 0 && depth < DEPTH_LIMIT {
        Tree::Object(
            entry_members(item).push(
                ("children"@, Tree::Array(entries(item.down@, (depth + 1) as nat))),
            ),
        )
    } else {
        Tree::Object(entry_members(item))
    }
}

/// What is said of a run of entries at `depth`.
pub open spec fn entries(items: Seq<OutlineItem>, depth: nat) -> Seq<Tree>
    decreases DEPTH_LIMIT - depth, 1nat,
{
    Seq::new(items.len(), |i: int| entry_tree(items[i], depth))
}

/// What is said of the table of contents.
pub open spec fn tool_get_outline_spec(items: Seq<OutlineItem>) -> Tree {
    Tree::Array(entries(items, 0))
}

/// The title, the URI and the page of an entry.
fn entry(item: &OutlineItem) -> (r: Json)
    ensures
        r@ == Tree::Object(entry_members(*item)),
{
    let uri: Json = match &item.uri {
        Some(u) => Json::text(u.as_str()),
        None => Json::Null,
    };
    let r: Json = Json::object().with("title", Json::text(item.title.as_str())).with("uri", uri);
    assert(r@->Object_0 =~= seq![("title"@, Tree::Text(item.title@)), ("uri"@, uri_tree(item.uri))]);
    match item.page {
        Some(p) => r.with("page", Json::unsigned(p as u64)),
        None => r,
    }
}

/// What is said of a run of entries at `depth`.
fn walk(items: &Vec<OutlineItem>, depth: u32) -> (r: Vec<Json>)
    requires
        depth <= DEPTH_LIMIT,
    ensures
        items_view(r@) == entries(items@, depth as nat),
    decreases DEPTH_LIMIT - depth,
{
    let mut out: Vec<Json> = Vec::new();
    let mut i: usize = 0;
    while i < items.len()
        invariant
            depth <= DEPTH_LIMIT,
            i <= items@.len(),
            out@.len() == i,
            forall|j: int| 0 <= j < i ==> #[trigger] out@[j]@ == entry_tree(items@[j], depth as nat),
        decreases items@.len() - i,
    {
        let item: &OutlineItem = &items[i];
        let said: Json = entry(item);
        if item.down.len() > 0 && depth < DEPTH_LIMIT {
            let below: Vec<Json> = walk(&item.down, depth + 1);
            out.push(said.with("children", Json::array(below)));
        } else {
            out.push(said);
        }
        i += 1;
    }
    assert(items_view(out@) =~= entries(items@, depth as nat));
    out
}

/// What is said of the table of contents.
pub fn tool_get_outline(items: &Vec<OutlineItem>) -> (r: Json)
    ensures
        r@ == tool_get_outline_spec(items@),
{
    Json::array(walk(items, 0))
}

/// Every entry is listed, in its place, with the entries under it if it lies above the
/// limit; no entry at the limit has any under it.
pub proof fn law_outline_is_cut_at_the_limit(items: Seq<OutlineItem>, depth: nat, i: int)
    requires
        0 <= i < items.len(),
    ensures
        entries(items, depth).len() == items.len(),
        entries(items, depth)[i].get("title"@) == Some(Tree::Text(items[i].title@)),
        entries(items, depth)[i].get("children"@) == if items[i].down@.len() > 0 && depth
            < DEPTH_LIMIT {
            Some(Tree::Array(entries(items[i].down@, (depth + 1) as nat)))
        } else {
            None
        },
{
    reveal_strlit("title");
    reveal_strlit("uri");
    reveal_strlit("page");
    reveal_strlit("children");
    assert("title"@.len() == 5 && "uri"@.len() == 3 && "page"@.len() == 4 && "children"@.len()
        == 8);
    reveal_with_fuel(find, 6);
    assert(entries(items, depth)[i] == entry_tree(items[i], depth));
}

} // verus!
