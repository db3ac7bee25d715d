//! Requests and responses.
use crate::call::{
    advance, answers, can_advance, failed, follows, handle_tool_call, handle_tool_call_spec,
    need_spec, Answer, Call, CallView, Need, Turn, TurnView,
};
use crate::content::tool_error;
use crate::json::{find, int_tree, Json, Tree};
use crate::text::{is_blank, joined, same, trim_spec};
use crate::tools::{tools_list, tools_list_spec};
use vstd::prelude::*;

verus! {

/// The revision of the protocol.
pub const PROTOCOL_VERSION: &'static str = "2024-11-05";

/// The name of the server.
pub const SERVER_NAME: &'static str = "pdf-mcp";

/// The version of the server.
pub const SERVER_VERSION: &'static str = "0.1.0";

/// The error code for a line that is not JSON.
pub const PARSE_ERROR: i64 = -32700;

/// The error code for a request without a method.
pub const INVALID_REQUEST: i64 = -32600;

/// The error code for a method that is not known.
pub const METHOD_NOT_FOUND: i64 = -32601;

/// The response with a result.
pub open spec fn result_response_spec(id: Tree, result: Tree) -> Tree {
    Tree::Object(seq![("jsonrpc"@, Tree::Text("2.0"@)), ("id"@, id), ("result"@, result)])
}

/// The response with a result.
pub fn result_response(id: Json, result: Json) -> (r: Json)
    ensures
        r@ == result_response_spec(id@, result@),
{
    let r: Json = Json::object().with("jsonrpc", Json::text("2.0")).with("id", id).with(
        "result",
        result,
    );
    assert(r@->Object_0 =~= result_response_spec(id@, result@)->Object_0);
    r
}

/// An error.
pub open spec fn error_tree(code: i64, message: Seq<char>) -> Tree {
    Tree::Object(seq![("code"@, int_tree(code as int)), ("message"@, Tree::Text(message))])
}

/// The response with an error.
pub open spec fn error_response_spec(id: Tree, code: i64, message: Seq<char>) -> Tree {
    Tree::Object(
        seq![("jsonrpc"@, Tree::Text("2.0"@)), ("id"@, id), ("error"@, error_tree(code, message))],
    )
}

/// The response with an error.
pub fn error_response(id: Json, code: i64, message: &str) -> (r: Json)
    ensures
        r@ == error_response_spec(id@, code, message@),
{
    let error: Json = Json::object().with("code", Json::integer(code)).with(
        "message",
        Json::text(message),
    );
    assert(error@->Object_0 =~= error_tree(code, message@)->Object_0);
    let r: Json = Json::object().with("jsonrpc", Json::text("2.0")).with("id", id).with(
        "error",
        error,
    );
    assert(r@->Object_0 =~= error_response_spec(id@, code, message@)->Object_0);
    r
}

/// What the server says of itself.
pub open spec fn server_spec() -> Tree {
    Tree::Object(
        seq![
            ("protocolVersion"@, Tree::Text(PROTOCOL_VERSION@)),
            ("capabilities"@, Tree::Object(seq![("tools"@, Tree::Object(seq![]))])),
            (
                "serverInfo"@,
                Tree::Object(
                    seq![
                        ("name"@, Tree::Text(SERVER_NAME@)),
                        ("version"@, Tree::Text(SERVER_VERSION@)),
                    ],
                ),
            ),
        ],
    )
}

/// What the server says of itself.
pub fn server() -> (r: Json)
    ensures
        r@ == server_spec(),
{
    let info: Json = Json::object().with("name", Json::text(SERVER_NAME)).with(
        "version",
        Json::text(SERVER_VERSION),
    );
    assert(info@->Object_0 =~= seq![
        ("name"@, Tree::Text(SERVER_NAME@)),
        ("version"@, Tree::Text(SERVER_VERSION@)),
    ]);
    let r: Json = Json::object().with("protocolVersion", Json::text(PROTOCOL_VERSION)).with(
        "capabilities",
        Json::object().with("tools", Json::object()),
    ).with("serverInfo", info);
    assert(r@->Object_0 =~= server_spec()->Object_0);
    r
}

/// A request that is under way: its id, and the tool call that it waits for.
#[derive(Debug, PartialEq)]
pub struct Job {
    pub id: Json,
    pub call: Call,
}

/// What comes of a request: nothing, a response, or a tool call to be worked on.
#[derive(Debug, PartialEq)]
pub enum Handled {
    Silent,
    Respond(Json),
    Work(Job),
}

/// What comes of a request, as a value.
pub enum HandledView {
    Silent,
    Respond(Tree),
    Work { id: Tree, call: CallView },
}

impl View for Handled {
    type V = HandledView;

    open spec fn view(&self) -> HandledView {
        match self {
            Handled::Silent => HandledView::Silent,
            Handled::Respond(v) => HandledView::Respond(v@),
            Handled::Work(job) => HandledView::Work { id: job.id@, call: job.call@ },
        }
    }
}

/// What comes of a turn of a tool call: the response, or more work.
pub open spec fn turned(id: Tree, turn: TurnView) -> HandledView {
    match turn {
        TurnView::Reply(v) => HandledView::Respond(result_response_spec(id, v)),
        TurnView::Ask(call) => HandledView::Work { id, call },
    }
}

/// What comes of a turn of a tool call.
fn after_turn(id: Json, turn: Turn) -> (r: Handled)
    ensures
        r@ == turned(id@, turn@),
{
    match turn {
        Turn::Reply(v) => Handled::Respond(result_response(id, v)),
        Turn::Ask(call) => Handled::Work(Job { id, call }),
    }
}

impl Job {
    /// What this request needs from the outside.
    pub fn need(&self) -> (r: Need<'_>)
        ensures
            r@ == need_spec(self.call@),
    {
        self.call.need()
    }

    /// Whether this request can go on with an answer.
    pub fn can_advance(&self, answer: &Answer) -> (r: bool)
        ensures
            r == answers(self.call@, *answer),
    {
        can_advance(&self.call, answer)
    }

    /// Go on with this request, once what it waits for is here.
    pub fn advance(self, answer: Answer) -> (r: Handled)
        requires
            answers(self.call@, answer),
        ensures
            exists|turn: TurnView| #[trigger]
                follows(self.call@, answer, turn) && r@ == turned(self.id@, turn),
    {
        let turn: Turn = advance(self.call, answer);
        assert(follows(self.call@, answer, turn@));
        after_turn(self.id, turn)
    }
}

/// The message for an answer that a tool cannot work on.
pub const BEYOND_LIMITS: &'static str = "The page or the picture is beyond the limits of the tool";

impl Job {
    /// End this request with an error, where it cannot go on with what is there.
    pub fn refuse(self) -> (r: Handled)
        ensures
            r@ == turned(self.id@, failed(BEYOND_LIMITS@)),
    {
        after_turn(self.id, Turn::Reply(tool_error(BEYOND_LIMITS)))
    }
}

/// The parameters of a request; none where they are left out.
pub open spec fn params_spec(req: Tree) -> Tree {
    match req.get("params"@) {
        Some(p) => p,
        None => Tree::Object(seq![]),
    }
}

/// What comes of a request. One without an id is a notification, and gets no response.
pub open spec fn handle_request_spec(req: Tree) -> HandledView {
    match req.get("id"@) {
        None => HandledView::Silent,
        Some(id) => match req.text_at("method"@) {
            None => HandledView::Respond(
                error_response_spec(
                    id,
                    INVALID_REQUEST,
                    "Invalid request: missing or non-string method"@,
                ),
            ),
            Some(method) => if method == "initialize"@ {
                HandledView::Respond(result_response_spec(id, server_spec()))
            } else if method == "tools/list"@ {
                HandledView::Respond(result_response_spec(id, tools_list_spec()))
            } else if method == "tools/call"@ {
                turned(id, handle_tool_call_spec(params_spec(req)))
            } else if method == "ping"@ {
                HandledView::Respond(result_response_spec(id, Tree::Object(seq![])))
            } else {
                HandledView::Respond(
                    error_response_spec(id, METHOD_NOT_FOUND, "Method not found: "@ + method),
                )
            },
        },
    }
}

/// What comes of a request.
pub fn handle_request(req: &Json) -> (r: Handled)
    ensures
        r@ == handle_request_spec(req@),
{
    let id: Json = match req.get("id") {
        Some(v) => v.clone(),
        None => return Handled::Silent,
    };
    let method: String = match req.text_at("method") {
        Some(m) => m,
        None => return Handled::Respond(
            error_response(
                id,
                INVALID_REQUEST,
                "Invalid request: missing or non-string method",
            ),
        ),
    };
    let name: &str = method.as_str();
    if same(name, "initialize") {
        Handled::Respond(result_response(id, server()))
    } else if same(name, "tools/list") {
        Handled::Respond(result_response(id, tools_list()))
    } else if same(name, "tools/call") {
        let turn: Turn = match req.get("params") {
            Some(p) => handle_tool_call(p),
            None => handle_tool_call(&Json::object()),
        };
        after_turn(id, turn)
    } else if same(name, "ping") {
        Handled::Respond(result_response(id, Json::object()))
    } else {
        let message: String = joined("Method not found: ", name);
        Handled::Respond(error_response(id, METHOD_NOT_FOUND, message.as_str()))
    }
}

/// What comes of a line of input. `parsed` is the value that the line holds, if it is
/// JSON. A line of white space is passed over.
pub open spec fn handle_line_spec(line: Seq<char>, parsed: Option<Tree>) -> HandledView {
    if trim_spec(line).len() == 0 {
        HandledView::Silent
    } else {
        match parsed {
            Some(req) => handle_request_spec(req),
            None => HandledView::Respond(
                error_response_spec(Tree::Null, PARSE_ERROR, "Parse error"@),
            ),
        }
    }
}

/// What comes of a line of input.
pub fn handle_line(line: &str, parsed: Option<&Json>) -> (r: Handled)
    ensures
        r@ == handle_line_spec(
            line@,
            match parsed {
                Some(req) => Some(req@),
                None => None,
            },
        ),
{
    if is_blank(line) {
        return Handled::Silent;
    }
    match parsed {
        Some(req) => handle_request(req),
        None => Handled::Respond(error_response(Json::Null, PARSE_ERROR, "Parse error")),
    }
}

/// Whether a response has an id, and either a result or an error.
pub open spec fn responds_to(response: Tree, id: Tree) -> bool {
    &&& response.get("jsonrpc"@) == Some(Tree::Text("2.0"@))
    &&& response.get("id"@) == Some(id)
    &&& response.get("result"@) is Some <==> response.get("error"@) is None
}

/// A response has the id that it was made with.
proof fn lemma_responds(id: Tree, result: Tree, code: i64, message: Seq<char>)
    ensures
        responds_to(result_response_spec(id, result), id),
        responds_to(error_response_spec(id, code, message), id),
{
    reveal_strlit("jsonrpc");
    reveal_strlit("id");
    reveal_strlit("result");
    reveal_strlit("error");
    assert("jsonrpc"@.len() == 7 && "id"@.len() == 2 && "result"@.len() == 6 && "error"@.len()
        == 5);
    reveal_with_fuel(find, 4);
}

/// A request with an id gets a response to that id, at once or when its tool call is
/// worked on; one without an id gets none.
pub proof fn law_requests_are_answered(req: Tree)
    ensures
        match req.get("id"@) {
            None => handle_request_spec(req) == HandledView::Silent,
            Some(id) => match handle_request_spec(req) {
                HandledView::Silent => false,
                HandledView::Respond(response) => responds_to(response, id),
                HandledView::Work { id: job, .. } => job == id,
            },
        },
{
    if let Some(id) = req.get("id"@) {
        let method = match req.text_at("method"@) {
            Some(m) => m,
            None => seq![],
        };
        lemma_responds(id, server_spec(), METHOD_NOT_FOUND, "Method not found: "@ + method);
        lemma_responds(
            id,
            tools_list_spec(),
            INVALID_REQUEST,
            "Invalid request: missing or non-string method"@,
        );
        lemma_responds(id, Tree::Object(seq![]), 0, seq![]);
        if let TurnView::Reply(v) = handle_tool_call_spec(params_spec(req)) {
            lemma_responds(id, v, 0, seq![]);
        }
    }
}

/// A request that is under way keeps its id, and its response is to that id.
pub proof fn law_work_keeps_the_id(id: Tree, turn: TurnView)
    ensures
        match turned(id, turn) {
            HandledView::Silent => false,
            HandledView::Respond(response) => responds_to(response, id),
            HandledView::Work { id: job, .. } => job == id,
        },
{
    if let TurnView::Reply(v) = turn {
        lemma_responds(id, v, 0, seq![]);
    }
}

/// A line that is not blank and not JSON is answered with an error, and the error has
/// no id.
pub proof fn law_bad_lines_are_answered(line: Seq<char>)
    requires
        trim_spec(line).len() > 0,
    ensures
        handle_line_spec(line, None) matches HandledView::Respond(response) && responds_to(
            response,
            Tree::Null,
        ) && response.get("error"@) == Some(error_tree(PARSE_ERROR, "Parse error"@)),
{
    lemma_responds(Tree::Null, Tree::Null, PARSE_ERROR, "Parse error"@);
    reveal_strlit("jsonrpc");
    reveal_strlit("id");
    reveal_strlit("error");
    assert("jsonrpc"@.len() == 7 && "id"@.len() == 2 && "error"@.len() == 5);
    reveal_with_fuel(find, 4);
}

} // verus!
