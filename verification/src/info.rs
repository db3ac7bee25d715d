//! Facts about a document.
use crate::document::{DocumentInfo, Rect};
use crate::json::{int_tree, items_view, single_tree, Json, Tree};
use vstd::prelude::*;

verus! {

/// What is said of a page.
pub open spec fn page_size_tree(page: nat, b: Rect) -> Tree {
    Tree::Object(
        seq![
            ("page"@, int_tree(page as int)),
            ("width"@, single_tree(b.x1.sub_spec(b.x0))),
            ("height"@, single_tree(b.y1.sub_spec(b.y0))),
        ],
    )
}

/// What is said of the pages that could be read, in their order.
pub open spec fn page_sizes(pages: Seq<Option<Rect>>) -> Seq<Tree>
    decreases pages.len(),
{
    if pages.len() == 0 {
        seq![]
    } else {
        let before = page_sizes(pages.drop_last());
        match pages.last() {
            Some(b) => before.push(page_size_tree((pages.len() - 1) as nat, b)),
            None => before,
        }
    }
}

/// What is said of a document.
pub open spec fn tool_get_info_spec(info: DocumentInfo) -> Tree {
    Tree::Object(
        seq![
            ("page_count"@, int_tree(info.page_count as int)),
            ("title"@, Tree::Text(info.title@)),
            ("author"@, Tree::Text(info.author@)),
            ("subject"@, Tree::Text(info.subject@)),
            ("keywords"@, Tree::Text(info.keywords@)),
            ("creator"@, Tree::Text(info.creator@)),
            ("producer"@, Tree::Text(info.producer@)),
            ("pages"@, Tree::Array(page_sizes(info.pages@))),
        ],
    )
}

/// What is said of a page.
fn page_size_json(page: usize, b: Rect) -> (r: Json)
    ensures
        r@ == page_size_tree(page as nat, b),
{
    let r: Json = Json::object().with("page", Json::unsigned(page as u64)).with(
        "width",
        Json::single(b.x1.sub(b.x0)),
    ).with("height", Json::single(b.y1.sub(b.y0)));
    assert(r@->Object_0 =~= page_size_tree(page as nat, b)->Object_0);
    r
}

/// What is said of a document: its metadata, and the size of each page that could be
/// read.
pub fn tool_get_info(info: &DocumentInfo) -> (r: Json)
    ensures
        r@ == tool_get_info_spec(*info),
{
    let mut pages: Vec<Json> = Vec::new();
    let mut i: usize = 0;
    assert(items_view(pages@) =~= page_sizes(info.pages@.take(0)));
    while i < info.pages.len()
        invariant
            i <= info.pages@.len(),
            items_view(pages@) == page_sizes(info.pages@.take(i as int)),
        decreases info.pages@.len() - i,
    {
        let ghost before = items_view(pages@);
        assert(info.pages@.take(i + 1).drop_last() =~= info.pages@.take(i as int));
        if let Some(b) = info.pages[i] {
            let page: Json = page_size_json(i, b);
            pages.push(page);
            assert(items_view(pages@) =~= before.push(page@));
        }
        i += 1;
    }
    assert(info.pages@.take(info.pages@.len() as int) =~= info.pages@);
    let r: Json = Json::object().with("page_count", Json::integer(info.page_count as i64)).with(
        "title",
        Json::text(info.title.as_str()),
    ).with("author", Json::text(info.author.as_str())).with(
        "subject",
        Json::text(info.subject.as_str()),
    ).with("keywords", Json::text(info.keywords.as_str())).with(
        "creator",
        Json::text(info.creator.as_str()),
    ).with("producer", Json::text(info.producer.as_str())).with("pages", Json::array(pages));
    assert(r@->Object_0 =~= tool_get_info_spec(*info)->Object_0);
    r
}

/// Where every page could be read, every page is listed, in its place.
pub proof fn law_every_page_is_listed(pages: Seq<Option<Rect>>)
    requires
        forall|i: int| 0 <= i < pages.len() ==> #[trigger] pages[i] is Some,
    ensures
        page_sizes(pages).len() == pages.len(),
        forall|i: int|
            0 <= i < pages.len() ==> #[trigger] page_sizes(pages)[i] == page_size_tree(
                i as nat,
                pages[i].unwrap(),
            ),
    decreases pages.len(),
{
    if pages.len() > 0 {
        let rest = pages.drop_last();
        assert(forall|i: int| 0 <= i < rest.len() ==> rest[i] == #[trigger] pages[i]);
        law_every_page_is_listed(rest);
        assert(pages[pages.len() - 1] is Some);
    }
}

/// A page that could be read is listed under its own number, whatever pages could not.
pub proof fn law_readable_page_is_listed(pages: Seq<Option<Rect>>, i: int)
    requires
        0 <= i < pages.len(),
        pages[i] is Some,
    ensures
        page_sizes(pages).contains(page_size_tree(i as nat, pages[i].unwrap())),
    decreases pages.len(),
{
    let rest = pages.drop_last();
    let before = page_sizes(rest);
    let said = page_size_tree(i as nat, pages[i].unwrap());
    if i < rest.len() {
        assert(rest[i] == pages[i]);
        law_readable_page_is_listed(rest, i);
        let k = before.index_of(said);
        assert(before[k] == said);
        assert(page_sizes(pages)[k] == said);
    } else {
        assert(page_sizes(pages)[before.len() as int] == said);
    }
}

/// Nothing is listed but pages that could be read.
pub proof fn law_only_readable_pages_are_listed(pages: Seq<Option<Rect>>, k: int)
    requires
        0 <= k < page_sizes(pages).len(),
    ensures
        exists|i: int|
            0 <= i < pages.len() && (#[trigger] pages[i]) is Some && page_sizes(pages)[k]
                == page_size_tree(i as nat, pages[i].unwrap()),
    decreases pages.len(),
{
    let rest = pages.drop_last();
    let before = page_sizes(rest);
    if k < before.len() {
        law_only_readable_pages_are_listed(rest, k);
        let i = choose|i: int|
            0 <= i < rest.len() && (#[trigger] rest[i]) is Some && before[k] == page_size_tree(
                i as nat,
                rest[i].unwrap(),
            );
        assert(pages[i] == rest[i]);
    } else {
        assert(pages[pages.len() - 1] is Some);
    }
}

} // verus!
