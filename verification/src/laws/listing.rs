//! The tools are listed with the parameters that they take.
use crate::json::{find, Tree};
use crate::laws::values::{has_members, is_text, law_members_are_found_by_key};
use crate::tools::{
    choice_tree, kind_tree, own_params, param_tree, params, required, schema_tree, tool_about,
    tool_name, tool_tree, tools_list_spec, Tool, EXTRACT_REGION_TEXT_ABOUT, GET_INFO_ABOUT,
    GET_OUTLINE_ABOUT, GET_PAGE_LINKS_ABOUT, GET_PAGE_TEXT_ABOUT, GET_TEXT_BLOCKS_ABOUT,
    INTENSITY_PROFILE_ABOUT, INTENSITY_PROFILE_AXIS_ABOUT, INTENSITY_PROFILE_BAND_WIDTH_ABOUT,
    INTENSITY_PROFILE_OFFSET_ABOUT, INTENSITY_PROFILE_THRESHOLD_ABOUT, PAGE_ABOUT, PATH_ABOUT,
    RENDER_ABOUT, RENDER_DPI_ABOUT, RENDER_FORMAT_ABOUT, RENDER_HEIGHT_ABOUT,
    RENDER_OUTPUT_PATH_ABOUT, RENDER_QUALITY_ABOUT, RENDER_WIDTH_ABOUT, RENDER_X0_ABOUT,
    RENDER_X1_ABOUT, RENDER_Y0_ABOUT, RENDER_Y1_ABOUT, SEARCH_ABOUT, SEARCH_PAGE_ABOUT,
    SEARCH_QUERY_ABOUT,
};
use vstd::prelude::*;

verus! {

/// Whether a parameter is of a kind, and says what it means.
pub open spec fn is_param(t: Option<Tree>, kind: Seq<char>, about: Seq<char>) -> bool {
    t matches Some(p) && is_text(p.get("type"@), kind) && is_text(p.get("description"@), about)
}

/// Whether a parameter is of a kind, and needs no words.
pub open spec fn is_plain(t: Option<Tree>, kind: Seq<char>) -> bool {
    t matches Some(p) && has_members(p, 1) && is_text(p.get("type"@), kind)
}

/// Whether a parameter takes one of two values.
pub open spec fn is_choice(t: Option<Tree>, a: Seq<char>, b: Seq<char>) -> bool {
    t matches Some(p) && p.get("enum"@) matches Some(Tree::Array(v)) && v.len() == 2 && is_text(
        Some(v[0]),
        a,
    ) && is_text(Some(v[1]), b)
}

/// The parameter of a tool under a name, as it is listed.
pub open spec fn listed(t: Tree, key: Seq<char>) -> Option<Tree> {
    match t.get("inputSchema"@) {
        Some(schema) => match schema.get("properties"@) {
            Some(p) => p.get(key),
            None => None,
        },
        None => None,
    }
}

/// Whether an entry is of a tool: its name, what it does, and the path that it takes.
pub open spec fn is_tool(t: Tree, name: Seq<char>, about: Seq<char>) -> bool {
    &&& has_members(t, 3)
    &&& is_text(t.get("name"@), name)
    &&& is_text(t.get("description"@), about)
    &&& t.get("inputSchema"@) matches Some(schema) && has_members(schema, 3) && is_text(
        schema.get("type"@),
        "object"@,
    )
    &&& is_param(listed(t, "path"@), "string"@, PATH_ABOUT@)
}

/// Whether a tool takes `n` parameters.
pub open spec fn takes_just(t: Tree, n: int) -> bool {
    t.get("inputSchema"@) matches Some(schema) && schema.get("properties"@) matches Some(p)
        && has_members(p, n)
}

/// Whether a tool cannot do without a parameter.
pub open spec fn needs(t: Tree, key: Seq<char>) -> bool {
    t.get("inputSchema"@) matches Some(schema) && schema.get("required"@) matches Some(
        Tree::Array(keys),
    ) && keys.contains(Tree::Text(key))
}

/// Whether a name is one of a list.
pub open spec fn is_one_of(key: Seq<char>, keys: Seq<Seq<char>>) -> bool {
    exists|i: int| 0 <= i < keys.len() && #[trigger] keys[i] == key
}

/// A tool needs the parameters that it requires, and no others.
proof fn lemma_needs(tool: Tool, i: int, keys: Seq<Seq<char>>)
    requires
        tool_list()[i] == tool_tree(tool),
        required(tool).len() == keys.len(),
        forall|j: int| 0 <= j < keys.len() ==> #[trigger] required(tool)[j] == Tree::Text(keys[j]),
    ensures
        forall|key: Seq<char>| #[trigger]
            needs(tool_list()[i], key) <==> is_one_of(key, keys),
{
    lemma_tool(tool);
    assert forall|key: Seq<char>| #[trigger] needs(tool_list()[i], key) <==> is_one_of(
        key,
        keys,
    ) by {
        if needs(tool_list()[i], key) {
            let j = choose|j: int|
                0 <= j < required(tool).len() && required(tool)[j] == Tree::Text(key);
            assert(keys[j] == key);
        }
        if is_one_of(key, keys) {
            let j = choose|j: int| 0 <= j < keys.len() && #[trigger] keys[j] == key;
            assert(required(tool)[j] == Tree::Text(key));
        }
    }
}

proof fn lemma_param(kind: Seq<char>, about: Seq<char>, a: Seq<char>, b: Seq<char>)
    ensures
        is_param(Some(param_tree(kind, about)), kind, about),
        is_plain(Some(kind_tree(kind)), kind),
        is_param(Some(choice_tree(a, b, about)), "string"@, about),
        is_choice(Some(choice_tree(a, b, about)), a, b),
{
    reveal_strlit("type");
    reveal_strlit("description");
    reveal_strlit("enum");
    assert("type"@.len() == 4 && "type"@[0] == 't');
    assert("enum"@.len() == 4 && "enum"@[0] == 'e');
    assert("description"@.len() == 11);
    reveal_with_fuel(find, 4);
    let v = choice_tree(a, b, about).get("enum"@)->0->Array_0;
    assert(v =~= seq![Tree::Text(a), Tree::Text(b)]);
}

proof fn lemma_tool(tool: Tool)
    ensures
        is_text(tool_tree(tool).get("name"@), tool_name(tool)),
        is_text(tool_tree(tool).get("description"@), tool_about(tool)),
        tool_tree(tool).get("inputSchema"@) == Some(schema_tree(tool)),
        is_text(schema_tree(tool).get("type"@), "object"@),
        schema_tree(tool).get("properties"@) == Some(Tree::Object(params(tool))),
        schema_tree(tool).get("required"@) == Some(Tree::Array(required(tool))),
        forall|key: Seq<char>| #[trigger]
            listed(tool_tree(tool), key) == Tree::Object(params(tool)).get(key),
{
    reveal_strlit("name");
    reveal_strlit("description");
    reveal_strlit("inputSchema");
    reveal_strlit("type");
    reveal_strlit("properties");
    reveal_strlit("required");
    assert("name"@.len() == 4);
    assert("description"@.len() == 11 && "description"@[0] == 'd');
    assert("inputSchema"@.len() == 11 && "inputSchema"@[0] == 'i');
    assert("type"@.len() == 4 && "properties"@.len() == 10 && "required"@.len() == 8);
    reveal_with_fuel(find, 4);
}

/// A parameter of a tool is listed under its own name.
proof fn lemma_listed(tool: Tool, i: int)
    requires
        0 <= i < params(tool).len(),
    ensures
        listed(tool_tree(tool), params(tool)[i].0) == Some(params(tool)[i].1),
{
    lemma_tool(tool);
    let members = params(tool);
    let key = members[i].0;
    assert forall|j: int| 0 <= j < i implies (#[trigger] members[j]).0 != key by {
        lemma_names_differ(tool, j, i);
    }
    law_members_are_found_by_key(members, key, i);
}

/// No two parameters of a tool have the same name.
proof fn lemma_names_differ(tool: Tool, i: int, j: int)
    requires
        0 <= i < j < params(tool).len(),
    ensures
        params(tool)[i].0 != params(tool)[j].0,
{
    reveal_strlit("page");
    reveal_strlit("query");
    reveal_strlit("dpi");
    reveal_strlit("x0");
    reveal_strlit("y0");
    reveal_strlit("x1");
    reveal_strlit("y1");
    reveal_strlit("width");
    reveal_strlit("height");
    reveal_strlit("format");
    reveal_strlit("quality");
    reveal_strlit("output_path");
    reveal_strlit("axis");
    reveal_strlit("offset");
    reveal_strlit("band_width");
    reveal_strlit("threshold");
    reveal_strlit("path");
    assert("page"@.len() == 4 && "page"@[0] == 'p' && "page"@[2] == 'g');
    assert("query"@.len() == 5 && "query"@[0] == 'q');
    assert("dpi"@.len() == 3);
    assert("x0"@.len() == 2 && "x0"@[0] == 'x' && "x0"@[1] == '0');
    assert("y0"@.len() == 2 && "y0"@[0] == 'y' && "y0"@[1] == '0');
    assert("x1"@.len() == 2 && "x1"@[0] == 'x' && "x1"@[1] == '1');
    assert("y1"@.len() == 2 && "y1"@[0] == 'y' && "y1"@[1] == '1');
    assert("width"@.len() == 5 && "width"@[0] == 'w');
    assert("height"@.len() == 6 && "height"@[0] == 'h');
    assert("format"@.len() == 6 && "format"@[0] == 'f');
    assert("quality"@.len() == 7);
    assert("output_path"@.len() == 11);
    assert("axis"@.len() == 4 && "axis"@[0] == 'a');
    assert("offset"@.len() == 6 && "offset"@[0] == 'o');
    assert("band_width"@.len() == 10);
    assert("threshold"@.len() == 9);
    assert("path"@.len() == 4 && "path"@[0] == 'p' && "path"@[2] == 't');
    let members = params(tool);
    assert(members[i] == if i < own_params(tool).len() {
        own_params(tool)[i]
    } else {
        ("path"@, param_tree("string"@, PATH_ABOUT@))
    });
    assert(members[j] == if j < own_params(tool).len() {
        own_params(tool)[j]
    } else {
        ("path"@, param_tree("string"@, PATH_ABOUT@))
    });
}

/// The list of the tools.
pub open spec fn tool_list() -> Seq<Tree> {
    match tools_list_spec().get("tools"@) {
        Some(Tree::Array(tools)) => tools,
        _ => seq![],
    }
}

/// An entry of the list is that of the tool at its place.
proof fn lemma_entry(tool: Tool, i: int)
    requires
        i == match tool {
            Tool::GetInfo => 0int,
            Tool::GetPageText => 1,
            Tool::Search => 2,
            Tool::Render => 3,
            Tool::GetTextBlocks => 4,
            Tool::ExtractRegionText => 5,
            Tool::GetOutline => 6,
            Tool::GetPageLinks => 7,
            Tool::IntensityProfile => 8,
        },
    ensures
        tool_list().len() == 9,
        tool_list()[i] == tool_tree(tool),
        is_tool(tool_tree(tool), tool_name(tool), tool_about(tool)),
{
    reveal_strlit("tools");
    lemma_tool(tool);
    let n = own_params(tool).len() as int;
    lemma_listed(tool, n);
    lemma_param("string"@, PATH_ABOUT@, seq![], seq![]);
}

/// There are nine tools.
pub proof fn law_nine_tools_are_listed()
    ensures
        tool_list().len() == 9,
{
    lemma_entry(Tool::GetInfo, 0);
}

/// `get_info` is listed with its parameters, and with those that it needs.
pub proof fn law_get_info_is_listed()
    ensures
        is_tool(tool_list()[0], "get_info"@, GET_INFO_ABOUT@),
        takes_just(tool_list()[0], 1),
        forall|key: Seq<char>| #[trigger]
            needs(tool_list()[0], key) <==> is_one_of(key, seq!["path"@]),
{
    let tool = Tool::GetInfo;
    lemma_entry(tool, 0);
    lemma_tool(tool);
    lemma_needs(tool, 0, seq!["path"@]);
}

/// `get_page_text` is listed with its parameters, and with those that it needs.
pub proof fn law_get_page_text_is_listed()
    ensures
        is_tool(tool_list()[1], "get_page_text"@, GET_PAGE_TEXT_ABOUT@),
        takes_just(tool_list()[1], 2),
        is_param(listed(tool_list()[1], "page"@), "integer"@, PAGE_ABOUT@),
        forall|key: Seq<char>| #[trigger]
            needs(tool_list()[1], key) <==> is_one_of(key, seq!["path"@, "page"@]),
{
    let tool = Tool::GetPageText;
    lemma_entry(tool, 1);
    lemma_tool(tool);
    lemma_listed(tool, 0);
    lemma_param("integer"@, PAGE_ABOUT@, seq![], seq![]);
    lemma_needs(tool, 1, seq!["path"@, "page"@]);
}

/// `search` is listed with its parameters, and with those that it needs.
pub proof fn law_search_is_listed()
    ensures
        is_tool(tool_list()[2], "search"@, SEARCH_ABOUT@),
        takes_just(tool_list()[2], 3),
        is_param(listed(tool_list()[2], "query"@), "string"@, SEARCH_QUERY_ABOUT@),
        is_param(listed(tool_list()[2], "page"@), "integer"@, SEARCH_PAGE_ABOUT@),
        forall|key: Seq<char>| #[trigger]
            needs(tool_list()[2], key) <==> is_one_of(key, seq!["path"@, "query"@]),
{
    let tool = Tool::Search;
    lemma_entry(tool, 2);
    lemma_tool(tool);
    lemma_listed(tool, 0);
    lemma_param("string"@, SEARCH_QUERY_ABOUT@, seq![], seq![]);
    lemma_listed(tool, 1);
    lemma_param("integer"@, SEARCH_PAGE_ABOUT@, seq![], seq![]);
    lemma_needs(tool, 2, seq!["path"@, "query"@]);
}

/// `render` is listed with its parameters, and with those that it needs.
pub proof fn law_render_is_listed()
    ensures
        is_tool(tool_list()[3], "render"@, RENDER_ABOUT@),
        takes_just(tool_list()[3], 12),
        is_param(listed(tool_list()[3], "page"@), "integer"@, PAGE_ABOUT@),
        is_param(listed(tool_list()[3], "dpi"@), "number"@, RENDER_DPI_ABOUT@),
        is_param(listed(tool_list()[3], "x0"@), "number"@, RENDER_X0_ABOUT@),
        is_param(listed(tool_list()[3], "y0"@), "number"@, RENDER_Y0_ABOUT@),
        is_param(listed(tool_list()[3], "x1"@), "number"@, RENDER_X1_ABOUT@),
        is_param(listed(tool_list()[3], "y1"@), "number"@, RENDER_Y1_ABOUT@),
        is_param(listed(tool_list()[3], "width"@), "integer"@, RENDER_WIDTH_ABOUT@),
        is_param(listed(tool_list()[3], "height"@), "integer"@, RENDER_HEIGHT_ABOUT@),
        is_param(listed(tool_list()[3], "format"@), "string"@, RENDER_FORMAT_ABOUT@),
        is_choice(listed(tool_list()[3], "format"@), "png"@, "jpeg"@),
        is_param(listed(tool_list()[3], "quality"@), "integer"@, RENDER_QUALITY_ABOUT@),
        is_param(listed(tool_list()[3], "output_path"@), "string"@, RENDER_OUTPUT_PATH_ABOUT@),
        forall|key: Seq<char>| #[trigger]
            needs(tool_list()[3], key) <==> is_one_of(key, seq!["path"@, "page"@]),
{
    let tool = Tool::Render;
    lemma_entry(tool, 3);
    lemma_tool(tool);
    lemma_listed(tool, 0);
    lemma_param("integer"@, PAGE_ABOUT@, seq![], seq![]);
    lemma_listed(tool, 1);
    lemma_param("number"@, RENDER_DPI_ABOUT@, seq![], seq![]);
    lemma_listed(tool, 2);
    lemma_param("number"@, RENDER_X0_ABOUT@, seq![], seq![]);
    lemma_listed(tool, 3);
    lemma_param("number"@, RENDER_Y0_ABOUT@, seq![], seq![]);
    lemma_listed(tool, 4);
    lemma_param("number"@, RENDER_X1_ABOUT@, seq![], seq![]);
    lemma_listed(tool, 5);
    lemma_param("number"@, RENDER_Y1_ABOUT@, seq![], seq![]);
    lemma_listed(tool, 6);
    lemma_param("integer"@, RENDER_WIDTH_ABOUT@, seq![], seq![]);
    lemma_listed(tool, 7);
    lemma_param("integer"@, RENDER_HEIGHT_ABOUT@, seq![], seq![]);
    lemma_listed(tool, 8);
    lemma_param("string"@, RENDER_FORMAT_ABOUT@, "png"@, "jpeg"@);
    lemma_listed(tool, 9);
    lemma_param("integer"@, RENDER_QUALITY_ABOUT@, seq![], seq![]);
    lemma_listed(tool, 10);
    lemma_param("string"@, RENDER_OUTPUT_PATH_ABOUT@, seq![], seq![]);
    lemma_needs(tool, 3, seq!["path"@, "page"@]);
}

/// `get_text_blocks` is listed with its parameters, and with those that it needs.
pub proof fn law_get_text_blocks_is_listed()
    ensures
        is_tool(tool_list()[4], "get_text_blocks"@, GET_TEXT_BLOCKS_ABOUT@),
        takes_just(tool_list()[4], 2),
        is_param(listed(tool_list()[4], "page"@), "integer"@, PAGE_ABOUT@),
        forall|key: Seq<char>| #[trigger]
            needs(tool_list()[4], key) <==> is_one_of(key, seq!["path"@, "page"@]),
{
    let tool = Tool::GetTextBlocks;
    lemma_entry(tool, 4);
    lemma_tool(tool);
    lemma_listed(tool, 0);
    lemma_param("integer"@, PAGE_ABOUT@, seq![], seq![]);
    lemma_needs(tool, 4, seq!["path"@, "page"@]);
}

/// `extract_region_text` is listed with its parameters, and with those that it needs.
pub proof fn law_extract_region_text_is_listed()
    ensures
        is_tool(tool_list()[5], "extract_region_text"@, EXTRACT_REGION_TEXT_ABOUT@),
        takes_just(tool_list()[5], 6),
        is_param(listed(tool_list()[5], "page"@), "integer"@, PAGE_ABOUT@),
        is_plain(listed(tool_list()[5], "x0"@), "number"@),
        is_plain(listed(tool_list()[5], "y0"@), "number"@),
        is_plain(listed(tool_list()[5], "x1"@), "number"@),
        is_plain(listed(tool_list()[5], "y1"@), "number"@),
        forall|key: Seq<char>| #[trigger]
            needs(tool_list()[5], key) <==> is_one_of(
                key,
                seq!["path"@, "page"@, "x0"@, "y0"@, "x1"@, "y1"@],
            ),
{
    let tool = Tool::ExtractRegionText;
    lemma_entry(tool, 5);
    lemma_tool(tool);
    lemma_listed(tool, 0);
    lemma_param("integer"@, PAGE_ABOUT@, seq![], seq![]);
    lemma_listed(tool, 1);
    lemma_param("number"@, seq![], seq![], seq![]);
    lemma_listed(tool, 2);
    lemma_param("number"@, seq![], seq![], seq![]);
    lemma_listed(tool, 3);
    lemma_param("number"@, seq![], seq![], seq![]);
    lemma_listed(tool, 4);
    lemma_param("number"@, seq![], seq![], seq![]);
    lemma_needs(tool, 5, seq!["path"@, "page"@, "x0"@, "y0"@, "x1"@, "y1"@]);
}

/// `get_outline` is listed with its parameters, and with those that it needs.
pub proof fn law_get_outline_is_listed()
    ensures
        is_tool(tool_list()[6], "get_outline"@, GET_OUTLINE_ABOUT@),
        takes_just(tool_list()[6], 1),
        forall|key: Seq<char>| #[trigger]
            needs(tool_list()[6], key) <==> is_one_of(key, seq!["path"@]),
{
    let tool = Tool::GetOutline;
    lemma_entry(tool, 6);
    lemma_tool(tool);
    lemma_needs(tool, 6, seq!["path"@]);
}

/// `get_page_links` is listed with its parameters, and with those that it needs.
pub proof fn law_get_page_links_is_listed()
    ensures
        is_tool(tool_list()[7], "get_page_links"@, GET_PAGE_LINKS_ABOUT@),
        takes_just(tool_list()[7], 2),
        is_param(listed(tool_list()[7], "page"@), "integer"@, PAGE_ABOUT@),
        forall|key: Seq<char>| #[trigger]
            needs(tool_list()[7], key) <==> is_one_of(key, seq!["path"@, "page"@]),
{
    let tool = Tool::GetPageLinks;
    lemma_entry(tool, 7);
    lemma_tool(tool);
    lemma_listed(tool, 0);
    lemma_param("integer"@, PAGE_ABOUT@, seq![], seq![]);
    lemma_needs(tool, 7, seq!["path"@, "page"@]);
}

/// `intensity_profile` is listed with its parameters, and with those that it needs.
pub proof fn law_intensity_profile_is_listed()
    ensures
        is_tool(tool_list()[8], "intensity_profile"@, INTENSITY_PROFILE_ABOUT@),
        takes_just(tool_list()[8], 6),
        is_param(listed(tool_list()[8], "page"@), "integer"@, PAGE_ABOUT@),
        is_param(listed(tool_list()[8], "axis"@), "string"@, INTENSITY_PROFILE_AXIS_ABOUT@),
        is_choice(listed(tool_list()[8], "axis"@), "vertical"@, "horizontal"@),
        is_param(listed(tool_list()[8], "offset"@), "number"@, INTENSITY_PROFILE_OFFSET_ABOUT@),
        is_param(
            listed(tool_list()[8], "band_width"@),
            "number"@,
            INTENSITY_PROFILE_BAND_WIDTH_ABOUT@,
        ),
        is_param(
            listed(tool_list()[8], "threshold"@),
            "integer"@,
            INTENSITY_PROFILE_THRESHOLD_ABOUT@,
        ),
        forall|key: Seq<char>| #[trigger]
            needs(tool_list()[8], key) <==> is_one_of(key, seq!["path"@, "page"@, "axis"@]),
{
    let tool = Tool::IntensityProfile;
    lemma_entry(tool, 8);
    lemma_tool(tool);
    lemma_listed(tool, 0);
    lemma_param("integer"@, PAGE_ABOUT@, seq![], seq![]);
    lemma_listed(tool, 1);
    lemma_param("string"@, INTENSITY_PROFILE_AXIS_ABOUT@, "vertical"@, "horizontal"@);
    lemma_listed(tool, 2);
    lemma_param("number"@, INTENSITY_PROFILE_OFFSET_ABOUT@, seq![], seq![]);
    lemma_listed(tool, 3);
    lemma_param("number"@, INTENSITY_PROFILE_BAND_WIDTH_ABOUT@, seq![], seq![]);
    lemma_listed(tool, 4);
    lemma_param("integer"@, INTENSITY_PROFILE_THRESHOLD_ABOUT@, seq![], seq![]);
    lemma_needs(tool, 8, seq!["path"@, "page"@, "axis"@]);
}

} // verus!
