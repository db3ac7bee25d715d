//! Searching for text, page by page.
use crate::content::{quad_bbox, quad_bbox_spec, rect_json, rect_json_spec};
use crate::document::Quad;
use crate::json::{find, int_tree, items_view, Json, Tree};
use vstd::prelude::*;

verus! {

/// The number of hits that are looked for on a page.
pub const HIT_LIMIT: u32 = 500;

/// A search that is under way: the page that is next, the last page, and what was
/// found on the pages before.
#[derive(Debug, PartialEq)]
pub struct Search {
    pub query: String,
    pub page: i32,
    pub last: i32,
    pub matches: Vec<Json>,
    pub truncated: bool,
}

/// What a search that is under way holds.
#[verifier::ext_equal]
pub struct SearchView {
    pub query: Seq<char>,
    pub page: i32,
    pub last: i32,
    pub matches: Seq<Tree>,
    pub truncated: bool,
}

impl View for Search {
    type V = SearchView;

    open spec fn view(&self) -> SearchView {
        SearchView {
            query: self.query@,
            page: self.page,
            last: self.last,
            matches: items_view(self.matches@),
            truncated: self.truncated,
        }
    }
}

/// What is said of a hit.
pub open spec fn match_tree(page: i32, q: Quad) -> Tree {
    let (x0, y0, x1, y1) = quad_bbox_spec(q);
    Tree::Object(
        seq![("page"@, int_tree(page as int)), ("bbox"@, rect_json_spec(x0, y0, x1, y1))],
    )
}

/// What is said of the hits on a page, in their order.
pub open spec fn page_matches(page: i32, hits: Seq<Quad>) -> Seq<Tree> {
    Seq::new(hits.len(), |i: int| match_tree(page, hits[i]))
}

/// What is said of a hit.
fn match_json(page: i32, q: &Quad) -> (r: Json)
    ensures
        r@ == match_tree(page, *q),
{
    let (x0, y0, x1, y1) = quad_bbox(q);
    let r: Json = Json::object().with("page", Json::integer(page as i64)).with(
        "bbox",
        rect_json(x0, y0, x1, y1),
    );
    assert(r@->Object_0 =~= match_tree(page, *q)->Object_0);
    r
}

/// What is said of a search. Only a search that may have missed hits is said to be
/// truncated.
pub open spec fn search_tree(query: Seq<char>, matches: Seq<Tree>, truncated: bool) -> Tree {
    let said = seq![
        ("query"@, Tree::Text(query)),
        ("match_count"@, int_tree(matches.len() as int)),
        ("matches"@, Tree::Array(matches)),
    ];
    if truncated {
        Tree::Object(said.push(("truncated"@, Tree::Bool(true))))
    } else {
        Tree::Object(said)
    }
}

/// What is said of a search.
fn search_json(query: &str, matches: Vec<Json>, truncated: bool) -> (r: Json)
    ensures
        r@ == search_tree(query@, items_view(matches@), truncated),
{
    let said: Json = Json::object().with("query", Json::text(query)).with(
        "match_count",
        Json::unsigned(matches.len() as u64),
    ).with("matches", Json::array(matches));
    let ghost plain = search_tree(query@, items_view(matches@), false);
    assert(said@->Object_0 =~= plain->Object_0);
    if truncated {
        said.with("truncated", Json::Bool(true))
    } else {
        said
    }
}

/// A step of a search: the next page to look on, or the result.
#[derive(Debug, PartialEq)]
pub enum SearchStep {
    Next(Search),
    Found(Json),
}

/// What a step of a search holds.
pub enum SearchStepView {
    Next(SearchView),
    Found(Tree),
}

impl View for SearchStep {
    type V = SearchStepView;

    open spec fn view(&self) -> SearchStepView {
        match self {
            SearchStep::Next(s) => SearchStepView::Next(s@),
            SearchStep::Found(v) => SearchStepView::Found(v@),
        }
    }
}

/// The first step of a search: on the page that was asked for, or on the first of
/// `page_count` pages.
pub open spec fn start_search_spec(
    query: Seq<char>,
    specific: Option<i32>,
    page_count: i32,
) -> SearchStepView {
    match specific {
        Some(p) => SearchStepView::Next(
            SearchView { query, page: p, last: p, matches: seq![], truncated: false },
        ),
        None => if page_count > 0 {
            SearchStepView::Next(
                SearchView {
                    query,
                    page: 0,
                    last: (page_count - 1) as i32,
                    matches: seq![],
                    truncated: false,
                },
            )
        } else {
            SearchStepView::Found(search_tree(query, seq![], false))
        },
    }
}

/// The first step of a search.
pub fn start_search(query: &str, specific: Option<i32>, page_count: i32) -> (r: SearchStep)
    ensures
        r@ == start_search_spec(query@, specific, page_count),
{
    let matches: Vec<Json> = Vec::new();
    assert(items_view(matches@) =~= seq![]);
    match specific {
        Some(p) => SearchStep::Next(
            Search { query: query.to_owned(), page: p, last: p, matches, truncated: false },
        ),
        None => if page_count > 0 {
            SearchStep::Next(
                Search {
                    query: query.to_owned(),
                    page: 0,
                    last: page_count - 1,
                    matches,
                    truncated: false,
                },
            )
        } else {
            SearchStep::Found(search_json(query, matches, false))
        },
    }
}

/// The step after the hits on a page are known.
pub open spec fn tool_search_spec(s: SearchView, hits: Seq<Quad>) -> SearchStepView {
    let matches = s.matches + page_matches(s.page, hits);
    let truncated = s.truncated || hits.len() >= HIT_LIMIT;
    if s.page < s.last {
        SearchStepView::Next(
            SearchView {
                query: s.query,
                page: (s.page + 1) as i32,
                last: s.last,
                matches,
                truncated,
            },
        )
    } else {
        SearchStepView::Found(search_tree(s.query, matches, truncated))
    }
}

/// The step after the hits on a page are known.
pub fn tool_search(s: Search, hits: &Vec<Quad>) -> (r: SearchStep)
    ensures
        r@ == tool_search_spec(s@, hits@),
{
    let ghost before = items_view(s.matches@);
    let mut matches: Vec<Json> = s.matches;
    let page: i32 = s.page;
    let mut i: usize = 0;
    assert(items_view(matches@) =~= before + page_matches(page, hits@).take(0));
    while i < hits.len()
        invariant
            i <= hits@.len(),
            items_view(matches@) == before + page_matches(page, hits@).take(i as int),
        decreases hits@.len() - i,
    {
        let ghost all = page_matches(page, hits@);
        let hit: Json = match_json(page, &hits[i]);
        let ghost so_far = items_view(matches@);
        matches.push(hit);
        assert(items_view(matches@) =~= so_far.push(hit@));
        assert(all.take(i + 1) =~= all.take(i as int).push(all[i as int]));
        assert(items_view(matches@) =~= before + all.take(i + 1));
        i += 1;
    }
    assert(page_matches(page, hits@).take(hits@.len() as int) =~= page_matches(page, hits@));
    let truncated: bool = s.truncated || hits.len() >= HIT_LIMIT as usize;
    if page < s.last {
        SearchStep::Next(
            Search { query: s.query, page: page + 1, last: s.last, matches, truncated },
        )
    } else {
        SearchStep::Found(search_json(s.query.as_str(), matches, truncated))
    }
}

/// What is said of the hits on a run of pages that starts at `page`.
pub open spec fn all_matches(page: int, pages: Seq<Seq<Quad>>) -> Seq<Tree>
    decreases pages.len(),
{
    if pages.len() == 0 {
        seq![]
    } else {
        page_matches(page as i32, pages[0]) + all_matches(page + 1, pages.drop_first())
    }
}

/// Whether a page of a run has as many hits as are looked for.
pub open spec fn any_full(pages: Seq<Seq<Quad>>) -> bool {
    exists|i: int| 0 <= i < pages.len() && (#[trigger] pages[i]).len() >= HIT_LIMIT
}

/// The result of a search, once the hits on each of its pages are known.
pub open spec fn run_search(step: SearchStepView, pages: Seq<Seq<Quad>>) -> Option<Tree>
    decreases pages.len(),
{
    match step {
        SearchStepView::Found(v) => if pages.len() == 0 {
            Some(v)
        } else {
            None
        },
        SearchStepView::Next(s) => if pages.len() == 0 {
            None
        } else {
            run_search(tool_search_spec(s, pages[0]), pages.drop_first())
        },
    }
}

/// The result of a search that is under way.
proof fn lemma_run_search(s: SearchView, pages: Seq<Seq<Quad>>)
    requires
        s.page <= s.last,
        pages.len() == s.last - s.page + 1,
    ensures
        run_search(SearchStepView::Next(s), pages) == Some(
            search_tree(
                s.query,
                s.matches + all_matches(s.page as int, pages),
                s.truncated || any_full(pages),
            ),
        ),
    decreases pages.len(),
{
    let rest = pages.drop_first();
    let step = tool_search_spec(s, pages[0]);
    let full = pages[0].len() >= HIT_LIMIT;
    assert(any_full(pages) == (full || any_full(rest))) by {
        if any_full(pages) {
            let i = choose|i: int| 0 <= i < pages.len() && (#[trigger] pages[i]).len() >= HIT_LIMIT;
            if i > 0 {
                assert(rest[i - 1] == pages[i]);
            }
        }
        if any_full(rest) {
            let i = choose|i: int| 0 <= i < rest.len() && (#[trigger] rest[i]).len() >= HIT_LIMIT;
            assert(pages[i + 1] == rest[i]);
        }
        if full {
            assert(pages[0].len() >= HIT_LIMIT);
        }
    }
    assert(s.matches + all_matches(s.page as int, pages) =~= s.matches + page_matches(
        s.page,
        pages[0],
    ) + all_matches(s.page + 1, rest));
    if s.page < s.last {
        lemma_run_search(step->Next_0, rest);
    } else {
        assert(rest.len() == 0);
        assert(all_matches(s.page + 1, rest) =~= seq![]);
        assert(s.matches + page_matches(s.page, pages[0]) + all_matches(s.page + 1, rest)
            =~= s.matches + page_matches(s.page, pages[0]));
    }
}

/// A search looks on each of its pages once, in their order: all pages of the document,
/// or the one that was asked for. Its result holds every hit in that order, and is
/// said to be truncated just where a page has as many hits as are looked for.
pub proof fn law_search_holds_every_hit(
    query: Seq<char>,
    specific: Option<i32>,
    page_count: i32,
    pages: Seq<Seq<Quad>>,
)
    requires
        pages.len() == if specific is Some {
            1
        } else if page_count > 0 {
            page_count as int
        } else {
            0
        },
    ensures
        run_search(start_search_spec(query, specific, page_count), pages) == Some(
            search_tree(
                query,
                all_matches(
                    match specific {
                        Some(p) => p as int,
                        None => 0,
                    },
                    pages,
                ),
                any_full(pages),
            ),
        ),
{
    match start_search_spec(query, specific, page_count) {
        SearchStepView::Next(s) => {
            lemma_run_search(s, pages);
            assert(s.matches + all_matches(s.page as int, pages) =~= all_matches(
                s.page as int,
                pages,
            ));
        },
        SearchStepView::Found(_) => {
            assert(all_matches(0, pages) =~= seq![]);
        },
    }
}

/// The match count of a result is the number of its matches.
pub proof fn law_match_count(query: Seq<char>, matches: Seq<Tree>, truncated: bool)
    ensures
        search_tree(query, matches, truncated).get("match_count"@) == Some(
            int_tree(matches.len() as int),
        ),
        search_tree(query, matches, truncated).get("matches"@) == Some(Tree::Array(matches)),
        search_tree(query, matches, truncated).get("truncated"@) == if truncated {
            Some(Tree::Bool(true))
        } else {
            None
        },
{
    reveal_strlit("query");
    reveal_strlit("match_count");
    reveal_strlit("matches");
    reveal_strlit("truncated");
    reveal_with_fuel(find, 6);
    assert("query"@.len() == 5 && "match_count"@.len() == 11 && "matches"@.len() == 7
        && "truncated"@.len() == 9);
}

} // verus!
