//! The tools that are offered, and the parameters they take.
use crate::json::{find, items_view, Json, Tree};
use crate::text::same;
use vstd::prelude::*;

verus! {

/// The parameter that every tool takes.
pub const PATH_ABOUT: &'static str = "Absolute path to the PDF file";

/// The page of a tool that works on one page.
pub const PAGE_ABOUT: &'static str = "Page number (0-indexed)";

/// What `get_info` does.
pub const GET_INFO_ABOUT: &'static str = "Get PDF metadata: page count, title, author, subject, keywords, creator, producer, and per-page dimensions (in PDF points, 72pt = 1in).";

/// What `get_page_text` does.
pub const GET_PAGE_TEXT_ABOUT: &'static str = "Extract all text content from a specific page.";

/// What `search` does.
pub const SEARCH_ABOUT: &'static str = "Search for text in the PDF. Returns matches with page numbers and bounding boxes (in PDF points, 72pt = 1in, origin at top-left).";

/// The parameter `query` of `search`.
pub const SEARCH_QUERY_ABOUT: &'static str = "Text to search for";

/// The parameter `page` of `search`.
pub const SEARCH_PAGE_ABOUT: &'static str = "Specific page (0-indexed). Omit to search all pages.";

/// What `render` does.
pub const RENDER_ABOUT: &'static str = "Render a page (or rectangular region) as an image. Returns base64-encoded inline by default, or writes to disk if output_path is given. Coordinates in PDF points (72pt = 1in). Use search or get_text_blocks to find region coordinates.";

/// The parameter `dpi` of `render`.
pub const RENDER_DPI_ABOUT: &'static str = "Render resolution in DPI (default 150). Higher = sharper but larger before resize.";

/// The parameter `x0` of `render`.
pub const RENDER_X0_ABOUT: &'static str = "ROI left edge (PDF points). Omit x0/y0/x1/y1 to render full page.";

/// The parameter `y0` of `render`.
pub const RENDER_Y0_ABOUT: &'static str = "ROI top edge";

/// The parameter `x1` of `render`.
pub const RENDER_X1_ABOUT: &'static str = "ROI right edge";

/// The parameter `y1` of `render`.
pub const RENDER_Y1_ABOUT: &'static str = "ROI bottom edge";

/// The parameter `width` of `render`.
pub const RENDER_WIDTH_ABOUT: &'static str = "Resize output to this width in pixels (preserves aspect ratio). Overrides height if both given.";

/// The parameter `height` of `render`.
pub const RENDER_HEIGHT_ABOUT: &'static str = "Resize output to this height in pixels (preserves aspect ratio).";

/// The parameter `format` of `render`.
pub const RENDER_FORMAT_ABOUT: &'static str = "Output format (default png). Use jpeg for smaller file size.";

/// The parameter `quality` of `render`.
pub const RENDER_QUALITY_ABOUT: &'static str = "JPEG quality 1-100 (default 80). Ignored for PNG.";

/// The parameter `output_path` of `render`.
pub const RENDER_OUTPUT_PATH_ABOUT: &'static str = "Write image to this file path instead of returning inline. Returns the path and file size on success.";

/// What `get_text_blocks` does.
pub const GET_TEXT_BLOCKS_ABOUT: &'static str = "Get text organized into positioned blocks with bounding boxes. Useful for understanding page layout, locating figures, tables, and whitespace gaps.";

/// What `extract_region_text` does.
pub const EXTRACT_REGION_TEXT_ABOUT: &'static str = "Extract text from a specific rectangular region of a page. Coordinates in PDF points.";

/// What `get_outline` does.
pub const GET_OUTLINE_ABOUT: &'static str = "Get the PDF table of contents / bookmarks as a tree.";

/// What `get_page_links` does.
pub const GET_PAGE_LINKS_ABOUT: &'static str = "Get all hyperlinks on a page with their bounding boxes and URIs.";

/// What `intensity_profile` does.
pub const INTENSITY_PROFILE_ABOUT: &'static str = "Get a 1D intensity profile along the vertical or horizontal axis of a page. Each value is mean luminance (0=black, 255=white) at that PDF-point coordinate. Use to find content bounds and whitespace for cropping. Returns profile array, auto-detected content_start/content_end in PDF points, and suggested crop bounds.";

/// The parameter `axis` of `intensity_profile`.
pub const INTENSITY_PROFILE_AXIS_ABOUT: &'static str = "vertical = profile top-to-bottom (find top/bottom margins), horizontal = profile left-to-right (find left/right margins)";

/// The parameter `offset` of `intensity_profile`.
pub const INTENSITY_PROFILE_OFFSET_ABOUT: &'static str = "Sample at this perpendicular offset in PDF points (e.g. for vertical axis, this is an x position). Omit to average across the full perpendicular dimension.";

/// The parameter `band_width` of `intensity_profile`.
pub const INTENSITY_PROFILE_BAND_WIDTH_ABOUT: &'static str = "Width of band to average around offset, in PDF points (default 10 if offset given, full dimension if not).";

/// The parameter `threshold` of `intensity_profile`.
pub const INTENSITY_PROFILE_THRESHOLD_ABOUT: &'static str = "Luminance below this value counts as content (default 250). Lower = stricter.";

/// A tool.
#[derive(Clone, Copy, Debug, PartialEq, Eq, Structural)]
pub enum Tool {
    GetInfo,
    GetPageText,
    Search,
    Render,
    GetTextBlocks,
    ExtractRegionText,
    GetOutline,
    GetPageLinks,
    IntensityProfile,
}

/// Every tool, in the order in which they are listed.
pub open spec fn all_tools() -> Seq<Tool> {
    seq![
        Tool::GetInfo,
        Tool::GetPageText,
        Tool::Search,
        Tool::Render,
        Tool::GetTextBlocks,
        Tool::ExtractRegionText,
        Tool::GetOutline,
        Tool::GetPageLinks,
        Tool::IntensityProfile,
    ]
}

/// The name of a tool.
pub open spec fn tool_name(tool: Tool) -> Seq<char> {
    match tool {
        Tool::GetInfo => "get_info"@,
        Tool::GetPageText => "get_page_text"@,
        Tool::Search => "search"@,
        Tool::Render => "render"@,
        Tool::GetTextBlocks => "get_text_blocks"@,
        Tool::ExtractRegionText => "extract_region_text"@,
        Tool::GetOutline => "get_outline"@,
        Tool::GetPageLinks => "get_page_links"@,
        Tool::IntensityProfile => "intensity_profile"@,
    }
}

/// What a tool does, in words.
pub open spec fn tool_about(tool: Tool) -> Seq<char> {
    match tool {
        Tool::GetInfo => GET_INFO_ABOUT@,
        Tool::GetPageText => GET_PAGE_TEXT_ABOUT@,
        Tool::Search => SEARCH_ABOUT@,
        Tool::Render => RENDER_ABOUT@,
        Tool::GetTextBlocks => GET_TEXT_BLOCKS_ABOUT@,
        Tool::ExtractRegionText => EXTRACT_REGION_TEXT_ABOUT@,
        Tool::GetOutline => GET_OUTLINE_ABOUT@,
        Tool::GetPageLinks => GET_PAGE_LINKS_ABOUT@,
        Tool::IntensityProfile => INTENSITY_PROFILE_ABOUT@,
    }
}

/// A parameter of a kind.
pub open spec fn kind_tree(kind: Seq<char>) -> Tree {
    Tree::Object(seq![("type"@, Tree::Text(kind))])
}

/// A parameter of a kind, with what it means.
pub open spec fn param_tree(kind: Seq<char>, about: Seq<char>) -> Tree {
    Tree::Object(seq![("type"@, Tree::Text(kind)), ("description"@, Tree::Text(about))])
}

/// A text parameter that takes one of two values.
pub open spec fn choice_tree(a: Seq<char>, b: Seq<char>, about: Seq<char>) -> Tree {
    Tree::Object(
        seq![
            ("type"@, Tree::Text("string"@)),
            ("enum"@, Tree::Array(seq![Tree::Text(a), Tree::Text(b)])),
            ("description"@, Tree::Text(about)),
        ],
    )
}

/// The parameters of a tool, besides the path.
pub open spec fn own_params(tool: Tool) -> Seq<(Seq<char>, Tree)> {
    match tool {
        Tool::GetInfo => seq![],
        Tool::GetPageText => seq![
            ("page"@, param_tree("integer"@, PAGE_ABOUT@)),
        ],
        Tool::Search => seq![
            ("query"@, param_tree("string"@, SEARCH_QUERY_ABOUT@)),
            ("page"@, param_tree("integer"@, SEARCH_PAGE_ABOUT@)),
        ],
        Tool::Render => seq![
            ("page"@, param_tree("integer"@, PAGE_ABOUT@)),
            ("dpi"@, param_tree("number"@, RENDER_DPI_ABOUT@)),
            ("x0"@, param_tree("number"@, RENDER_X0_ABOUT@)),
            ("y0"@, param_tree("number"@, RENDER_Y0_ABOUT@)),
            ("x1"@, param_tree("number"@, RENDER_X1_ABOUT@)),
            ("y1"@, param_tree("number"@, RENDER_Y1_ABOUT@)),
            ("width"@, param_tree("integer"@, RENDER_WIDTH_ABOUT@)),
            ("height"@, param_tree("integer"@, RENDER_HEIGHT_ABOUT@)),
            ("format"@, choice_tree("png"@, "jpeg"@, RENDER_FORMAT_ABOUT@)),
            ("quality"@, param_tree("integer"@, RENDER_QUALITY_ABOUT@)),
            ("output_path"@, param_tree("string"@, RENDER_OUTPUT_PATH_ABOUT@)),
        ],
        Tool::GetTextBlocks => seq![
            ("page"@, param_tree("integer"@, PAGE_ABOUT@)),
        ],
        Tool::ExtractRegionText => seq![
            ("page"@, param_tree("integer"@, PAGE_ABOUT@)),
            ("x0"@, kind_tree("number"@)),
            ("y0"@, kind_tree("number"@)),
            ("x1"@, kind_tree("number"@)),
            ("y1"@, kind_tree("number"@)),
        ],
        Tool::GetOutline => seq![],
        Tool::GetPageLinks => seq![
            ("page"@, param_tree("integer"@, PAGE_ABOUT@)),
        ],
        Tool::IntensityProfile => seq![
            ("page"@, param_tree("integer"@, PAGE_ABOUT@)),
            ("axis"@, choice_tree("vertical"@, "horizontal"@, INTENSITY_PROFILE_AXIS_ABOUT@)),
            ("offset"@, param_tree("number"@, INTENSITY_PROFILE_OFFSET_ABOUT@)),
            ("band_width"@, param_tree("number"@, INTENSITY_PROFILE_BAND_WIDTH_ABOUT@)),
            ("threshold"@, param_tree("integer"@, INTENSITY_PROFILE_THRESHOLD_ABOUT@)),
        ],
    }
}

/// The parameters of a tool.
pub open spec fn params(tool: Tool) -> Seq<(Seq<char>, Tree)> {
    own_params(tool).push(("path"@, param_tree("string"@, PATH_ABOUT@)))
}

/// The parameters that a tool cannot do without.
pub open spec fn required(tool: Tool) -> Seq<Tree> {
    match tool {
        Tool::GetInfo => seq![Tree::Text("path"@)],
        Tool::GetPageText => seq![Tree::Text("path"@), Tree::Text("page"@)],
        Tool::Search => seq![Tree::Text("path"@), Tree::Text("query"@)],
        Tool::Render => seq![Tree::Text("path"@), Tree::Text("page"@)],
        Tool::GetTextBlocks => seq![Tree::Text("path"@), Tree::Text("page"@)],
        Tool::ExtractRegionText => seq![
            Tree::Text("path"@),
            Tree::Text("page"@),
            Tree::Text("x0"@),
            Tree::Text("y0"@),
            Tree::Text("x1"@),
            Tree::Text("y1"@),
        ],
        Tool::GetOutline => seq![Tree::Text("path"@)],
        Tool::GetPageLinks => seq![Tree::Text("path"@), Tree::Text("page"@)],
        Tool::IntensityProfile => seq![
            Tree::Text("path"@),
            Tree::Text("page"@),
            Tree::Text("axis"@),
        ],
    }
}

/// What is said of a tool.
pub open spec fn tool_tree(tool: Tool) -> Tree {
    Tree::Object(
        seq![
            ("name"@, Tree::Text(tool_name(tool))),
            ("description"@, Tree::Text(tool_about(tool))),
            ("inputSchema"@, schema_tree(tool)),
        ],
    )
}

/// The parameters of a tool, as a JSON schema.
pub open spec fn schema_tree(tool: Tool) -> Tree {
    Tree::Object(
        seq![
            ("type"@, Tree::Text("object"@)),
            ("properties"@, Tree::Object(params(tool))),
            ("required"@, Tree::Array(required(tool))),
        ],
    )
}

/// What is said of every tool.
pub open spec fn tools_list_spec() -> Tree {
    Tree::Object(
        seq![
            (
                "tools"@,
                Tree::Array(Seq::new(all_tools().len(), |i: int| tool_tree(all_tools()[i]))),
            ),
        ],
    )
}

/// The tool of a name.
pub open spec fn named_tool(name: Seq<char>) -> Option<Tool> {
    if name == "get_info"@ {
        Some(Tool::GetInfo)
    } else if name == "get_page_text"@ {
        Some(Tool::GetPageText)
    } else if name == "search"@ {
        Some(Tool::Search)
    } else if name == "render"@ {
        Some(Tool::Render)
    } else if name == "get_text_blocks"@ {
        Some(Tool::GetTextBlocks)
    } else if name == "extract_region_text"@ {
        Some(Tool::ExtractRegionText)
    } else if name == "get_outline"@ {
        Some(Tool::GetOutline)
    } else if name == "get_page_links"@ {
        Some(Tool::GetPageLinks)
    } else if name == "intensity_profile"@ {
        Some(Tool::IntensityProfile)
    } else {
        None
    }
}

/// A parameter of a kind.
fn kind_json(kind: &str) -> (r: Json)
    ensures
        r@ == kind_tree(kind@),
{
    Json::object().with("type", Json::text(kind))
}

/// A parameter of a kind, with what it means.
fn param(kind: &str, about: &str) -> (r: Json)
    ensures
        r@ == param_tree(kind@, about@),
{
    let r: Json = Json::object().with("type", Json::text(kind)).with(
        "description",
        Json::text(about),
    );
    assert(r@->Object_0 =~= param_tree(kind@, about@)->Object_0);
    r
}

/// A text parameter that takes one of two values.
fn choice(a: &str, b: &str, about: &str) -> (r: Json)
    ensures
        r@ == choice_tree(a@, b@, about@),
{
    let mut values: Vec<Json> = Vec::new();
    values.push(Json::text(a));
    values.push(Json::text(b));
    assert(items_view(values@) =~= seq![Tree::Text(a@), Tree::Text(b@)]);
    let r: Json = Json::object().with("type", Json::text("string")).with(
        "enum",
        Json::array(values),
    ).with("description", Json::text(about));
    assert(r@->Object_0 =~= choice_tree(a@, b@, about@)->Object_0);
    r
}

impl Tool {
    /// The tool of a name.
    pub fn from_name(name: &str) -> (r: Option<Tool>)
        ensures
            r == named_tool(name@),
    {
        if same(name, "get_info") {
            Some(Tool::GetInfo)
        } else if same(name, "get_page_text") {
            Some(Tool::GetPageText)
        } else if same(name, "search") {
            Some(Tool::Search)
        } else if same(name, "render") {
            Some(Tool::Render)
        } else if same(name, "get_text_blocks") {
            Some(Tool::GetTextBlocks)
        } else if same(name, "extract_region_text") {
            Some(Tool::ExtractRegionText)
        } else if same(name, "get_outline") {
            Some(Tool::GetOutline)
        } else if same(name, "get_page_links") {
            Some(Tool::GetPageLinks)
        } else if same(name, "intensity_profile") {
            Some(Tool::IntensityProfile)
        } else {
            None
        }
    }

    /// The name of this tool.
    pub fn name(self) -> (r: &'static str)
        ensures
            r@ == tool_name(self),
    {
        match self {
            Tool::GetInfo => "get_info",
            Tool::GetPageText => "get_page_text",
            Tool::Search => "search",
            Tool::Render => "render",
            Tool::GetTextBlocks => "get_text_blocks",
            Tool::ExtractRegionText => "extract_region_text",
            Tool::GetOutline => "get_outline",
            Tool::GetPageLinks => "get_page_links",
            Tool::IntensityProfile => "intensity_profile",
        }
    }

    /// What this tool does, in words.
    pub fn about(self) -> (r: &'static str)
        ensures
            r@ == tool_about(self),
    {
        match self {
            Tool::GetInfo => GET_INFO_ABOUT,
            Tool::GetPageText => GET_PAGE_TEXT_ABOUT,
            Tool::Search => SEARCH_ABOUT,
            Tool::Render => RENDER_ABOUT,
            Tool::GetTextBlocks => GET_TEXT_BLOCKS_ABOUT,
            Tool::ExtractRegionText => EXTRACT_REGION_TEXT_ABOUT,
            Tool::GetOutline => GET_OUTLINE_ABOUT,
            Tool::GetPageLinks => GET_PAGE_LINKS_ABOUT,
            Tool::IntensityProfile => INTENSITY_PROFILE_ABOUT,
        }
    }

    /// The parameters of this tool, besides the path.
    fn own_params_json(self) -> (r: Json)
        ensures
            r@ == Tree::Object(own_params(self)),
    {
        let r: Json = match self {
            Tool::GetInfo => Json::object(),
            Tool::GetPageText => Json::object().with(
                "page",
                param("integer", PAGE_ABOUT),
            ),
            Tool::Search => Json::object().with(
                "query",
                param("string", SEARCH_QUERY_ABOUT),
            ).with(
                "page",
                param("integer", SEARCH_PAGE_ABOUT),
            ),
            Tool::Render => Json::object().with(
                "page",
                param("integer", PAGE_ABOUT),
            ).with(
                "dpi",
                param("number", RENDER_DPI_ABOUT),
            ).with(
                "x0",
                param("number", RENDER_X0_ABOUT),
            ).with(
                "y0",
                param("number", RENDER_Y0_ABOUT),
            ).with(
                "x1",
                param("number", RENDER_X1_ABOUT),
            ).with(
                "y1",
                param("number", RENDER_Y1_ABOUT),
            ).with(
                "width",
                param("integer", RENDER_WIDTH_ABOUT),
            ).with(
                "height",
                param("integer", RENDER_HEIGHT_ABOUT),
            ).with(
                "format",
                choice("png", "jpeg", RENDER_FORMAT_ABOUT),
            ).with(
                "quality",
                param("integer", RENDER_QUALITY_ABOUT),
            ).with(
                "output_path",
                param("string", RENDER_OUTPUT_PATH_ABOUT),
            ),
            Tool::GetTextBlocks => Json::object().with(
                "page",
                param("integer", PAGE_ABOUT),
            ),
            Tool::ExtractRegionText => Json::object().with(
                "page",
                param("integer", PAGE_ABOUT),
            ).with(
                "x0",
                kind_json("number"),
            ).with(
                "y0",
                kind_json("number"),
            ).with(
                "x1",
                kind_json("number"),
            ).with(
                "y1",
                kind_json("number"),
            ),
            Tool::GetOutline => Json::object(),
            Tool::GetPageLinks => Json::object().with(
                "page",
                param("integer", PAGE_ABOUT),
            ),
            Tool::IntensityProfile => Json::object().with(
                "page",
                param("integer", PAGE_ABOUT),
            ).with(
                "axis",
                choice("vertical", "horizontal", INTENSITY_PROFILE_AXIS_ABOUT),
            ).with(
                "offset",
                param("number", INTENSITY_PROFILE_OFFSET_ABOUT),
            ).with(
                "band_width",
                param("number", INTENSITY_PROFILE_BAND_WIDTH_ABOUT),
            ).with(
                "threshold",
                param("integer", INTENSITY_PROFILE_THRESHOLD_ABOUT),
            ),
        };
        assert(r@->Object_0 =~= own_params(self));
        r
    }

    /// The parameters that this tool cannot do without.
    fn required_json(self) -> (r: Json)
        ensures
            r@ == Tree::Array(required(self)),
    {
        let mut names: Vec<Json> = Vec::new();
        names.push(Json::text("path"));
        match self {
            Tool::GetInfo => {},
            Tool::GetPageText => {
                names.push(Json::text("page"));
            },
            Tool::Search => {
                names.push(Json::text("query"));
            },
            Tool::Render => {
                names.push(Json::text("page"));
            },
            Tool::GetTextBlocks => {
                names.push(Json::text("page"));
            },
            Tool::ExtractRegionText => {
                names.push(Json::text("page"));
                names.push(Json::text("x0"));
                names.push(Json::text("y0"));
                names.push(Json::text("x1"));
                names.push(Json::text("y1"));
            },
            Tool::GetOutline => {},
            Tool::GetPageLinks => {
                names.push(Json::text("page"));
            },
            Tool::IntensityProfile => {
                names.push(Json::text("page"));
                names.push(Json::text("axis"));
            },
        }
        assert(items_view(names@) =~= required(self));
        Json::array(names)
    }

    /// What is said of this tool.
    pub fn describe(self) -> (r: Json)
        ensures
            r@ == tool_tree(self),
    {
        let properties: Json = self.own_params_json().with("path", param("string", PATH_ABOUT));
        let schema: Json = Json::object().with("type", Json::text("object")).with(
            "properties",
            properties,
        ).with("required", self.required_json());
        assert(schema@->Object_0 =~= schema_tree(self)->Object_0);
        let r: Json = Json::object().with("name", Json::text(self.name())).with(
            "description",
            Json::text(self.about()),
        ).with("inputSchema", schema);
        assert(r@->Object_0 =~= tool_tree(self)->Object_0);
        r
    }
}

/// What is said of every tool.
pub fn tools_list() -> (r: Json)
    ensures
        r@ == tools_list_spec(),
{
    let mut tools: Vec<Json> = Vec::new();
    tools.push(Tool::GetInfo.describe());
    tools.push(Tool::GetPageText.describe());
    tools.push(Tool::Search.describe());
    tools.push(Tool::Render.describe());
    tools.push(Tool::GetTextBlocks.describe());
    tools.push(Tool::ExtractRegionText.describe());
    tools.push(Tool::GetOutline.describe());
    tools.push(Tool::GetPageLinks.describe());
    tools.push(Tool::IntensityProfile.describe());
    assert(items_view(tools@) =~= Seq::new(
        all_tools().len(),
        |i: int| tool_tree(all_tools()[i]),
    ));
    Json::object().with("tools", Json::array(tools))
}

/// A member that is appended under a new key is found.
proof fn lemma_find_appended(members: Seq<(Seq<char>, Tree)>, key: Seq<char>, v: Tree)
    requires
        forall|i: int| 0 <= i < members.len() ==> (#[trigger] members[i]).0 != key,
    ensures
        find(members.push((key, v)), key) == Some(v),
    decreases members.len(),
{
    let all = members.push((key, v));
    if members.len() > 0 {
        assert(all[0] == members[0]);
        assert(all.drop_first() =~= members.drop_first().push((key, v)));
        lemma_find_appended(members.drop_first(), key, v);
    }
}

/// Every tool takes a path, and cannot do without it.
pub proof fn law_every_tool_takes_a_path(tool: Tool)
    ensures
        find(params(tool), "path"@) == Some(param_tree("string"@, PATH_ABOUT@)),
        required(tool).contains(Tree::Text("path"@)),
{
    reveal_strlit("path");
    reveal_strlit("page");
    reveal_strlit("query");
    reveal_strlit("dpi");
    reveal_strlit("x0");
    reveal_strlit("y0");
    reveal_strlit("x1");
    reveal_strlit("y1");
    reveal_strlit("width");
    reveal_strlit("height");
    reveal_strlit("format");
    reveal_strlit("quality");
    reveal_strlit("output_path");
    reveal_strlit("axis");
    reveal_strlit("offset");
    reveal_strlit("band_width");
    reveal_strlit("threshold");
    assert("path"@.len() == 4 && "path"@[0] == 'p' && "path"@[2] == 't');
    assert("query"@.len() == 5);
    assert("dpi"@.len() == 3);
    assert("x0"@.len() == 2);
    assert("y0"@.len() == 2);
    assert("x1"@.len() == 2);
    assert("y1"@.len() == 2);
    assert("width"@.len() == 5);
    assert("height"@.len() == 6);
    assert("format"@.len() == 6);
    assert("quality"@.len() == 7);
    assert("output_path"@.len() == 11);
    assert("offset"@.len() == 6);
    assert("band_width"@.len() == 10);
    assert("threshold"@.len() == 9);
    assert("page"@[2] == 'g');
    assert("axis"@[0] == 'a');
    lemma_find_appended(own_params(tool), "path"@, param_tree("string"@, PATH_ABOUT@));
    assert(required(tool)[0] == Tree::Text("path"@));
}

/// The tool of the name of a tool is that tool, and no other name names it.
pub proof fn law_names_are_distinct(tool: Tool, name: Seq<char>)
    ensures
        named_tool(name) == Some(tool) <==> name == tool_name(tool),
{
    reveal_strlit("get_info");
    reveal_strlit("get_page_text");
    reveal_strlit("search");
    reveal_strlit("render");
    reveal_strlit("get_text_blocks");
    reveal_strlit("extract_region_text");
    reveal_strlit("get_outline");
    reveal_strlit("get_page_links");
    reveal_strlit("intensity_profile");
    assert("get_info"@.len() == 8);
    assert("get_page_text"@.len() == 13);
    assert("search"@.len() == 6);
    assert("render"@.len() == 6);
    assert("get_text_blocks"@.len() == 15);
    assert("extract_region_text"@.len() == 19);
    assert("get_outline"@.len() == 11);
    assert("get_page_links"@.len() == 14);
    assert("intensity_profile"@.len() == 17);
    assert("search"@[0] == 's');
    assert("render"@[0] == 'r');
}

/// The list holds every tool, each once.
pub proof fn law_every_tool_is_listed(tool: Tool)
    ensures
        all_tools().len() == 9,
        exists|i: int|
            0 <= i < all_tools().len() && all_tools()[i] == tool && (forall|j: int|
                0 <= j < all_tools().len() && #[trigger] all_tools()[j] == tool ==> i == j),
{
    let i: int = match tool {
        Tool::GetInfo => 0,
        Tool::GetPageText => 1,
        Tool::Search => 2,
        Tool::Render => 3,
        Tool::GetTextBlocks => 4,
        Tool::ExtractRegionText => 5,
        Tool::GetOutline => 6,
        Tool::GetPageLinks => 7,
        Tool::IntensityProfile => 8,
    };
    assert(all_tools()[i] == tool);
}

/// A name is that of a tool that can be called just where it is the name of a tool that
/// is listed.
pub proof fn law_listed_tools_can_be_called(name: Seq<char>)
    ensures
        named_tool(name) is Some <==> exists|i: int|
            0 <= i < all_tools().len() && #[trigger] tool_name(all_tools()[i]) == name,
{
    if let Some(tool) = named_tool(name) {
        law_names_are_distinct(tool, name);
        law_every_tool_is_listed(tool);
        let i = choose|i: int|
            0 <= i < all_tools().len() && all_tools()[i] == tool && (forall|j: int|
                0 <= j < all_tools().len() && #[trigger] all_tools()[j] == tool ==> i == j);
        assert(tool_name(all_tools()[i]) == name);
    } else {
        assert forall|i: int| 0 <= i < all_tools().len() implies #[trigger] tool_name(
            all_tools()[i],
        ) != name by {
            law_names_are_distinct(all_tools()[i], name);
        }
    }
}

} // verus!
