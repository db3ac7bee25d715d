//! A request gets the response that its method is for.
use crate::cache::open_doc_spec;
use crate::call::{failed, handle_tool_call_spec, TurnView};
use crate::content::tool_error_spec;
use crate::json::{find, Tree};
use crate::laws::values::{
    has_members, is_number, is_text, law_answers_hold_what_they_are_made_of, law_blank_is_all_white,
    law_integers_are_shown, says_error, some_text,
};
use crate::protocol::{
    error_response_spec, error_tree, handle_line_spec, handle_request_spec, result_response_spec,
    server_spec, turned, HandledView, PROTOCOL_VERSION, SERVER_NAME, SERVER_VERSION,
};
use crate::text::white;
use crate::tools::tools_list_spec;
use vstd::prelude::*;

verus! {

/// Whether a request is answered with a result.
pub open spec fn responds(h: HandledView, id: Tree, result: Tree) -> bool {
    h matches HandledView::Respond(v) && {
        &&& has_members(v, 3)
        &&& is_text(v.get("jsonrpc"@), "2.0"@)
        &&& v.get("id"@) == Some(id)
        &&& v.get("result"@) == Some(result)
        &&& v.get("error"@) is None
    }
}

/// Whether a request is answered with an error.
pub open spec fn rejects(h: HandledView, id: Tree, code: int, message: Seq<char>) -> bool {
    h matches HandledView::Respond(v) && {
        &&& has_members(v, 3)
        &&& is_text(v.get("jsonrpc"@), "2.0"@)
        &&& v.get("id"@) == Some(id)
        &&& v.get("result"@) is None
        &&& v.get("error"@) matches Some(e) && has_members(e, 2) && is_number(
            e.get("code"@),
            code,
        ) && is_text(e.get("message"@), message)
    }
}

proof fn lemma_responds_with(id: Tree, result: Tree)
    ensures
        responds(HandledView::Respond(result_response_spec(id, result)), id, result),
{
    reveal_strlit("jsonrpc");
    reveal_strlit("id");
    reveal_strlit("result");
    reveal_strlit("error");
    assert("jsonrpc"@.len() == 7 && "id"@.len() == 2 && "result"@.len() == 6 && "error"@.len()
        == 5);
    reveal_with_fuel(find, 4);
}

proof fn lemma_rejects_with(id: Tree, code: i64, message: Seq<char>)
    ensures
        rejects(
            HandledView::Respond(error_response_spec(id, code, message)),
            id,
            code as int,
            message,
        ),
{
    reveal_strlit("jsonrpc");
    reveal_strlit("id");
    reveal_strlit("result");
    reveal_strlit("error");
    assert("jsonrpc"@.len() == 7 && "id"@.len() == 2 && "result"@.len() == 6 && "error"@.len()
        == 5);
    reveal_with_fuel(find, 4);
    assert(error_response_spec(id, code, message).get("error"@) == Some(error_tree(code, message)));
    lemma_error(code, message);
}

proof fn lemma_error(code: i64, message: Seq<char>)
    ensures
        is_number(error_tree(code, message).get("code"@), code as int),
        is_text(error_tree(code, message).get("message"@), message),
{
    reveal_strlit("code");
    reveal_strlit("message");
    assert("code"@.len() == 4 && "message"@.len() == 7);
    reveal_with_fuel(find, 3);
    law_integers_are_shown(code as int);
}

/// The methods are told apart by their names.
proof fn lemma_methods()
    ensures
        "initialize"@ != "tools/list"@ && "initialize"@ != "tools/call"@ && "initialize"@
            != "ping"@,
        "tools/list"@ != "tools/call"@ && "tools/list"@ != "ping"@,
        "tools/call"@ != "ping"@,
{
    reveal_strlit("initialize");
    reveal_strlit("tools/list");
    reveal_strlit("tools/call");
    reveal_strlit("ping");
    assert("initialize"@.len() == 10 && "initialize"@[0] == 'i');
    assert("tools/list"@.len() == 10 && "tools/list"@[0] == 't' && "tools/list"@[6] == 'l');
    assert("tools/call"@.len() == 10 && "tools/call"@[0] == 't' && "tools/call"@[6] == 'c');
    assert("ping"@.len() == 4);
}

/// A request without an id gets no response, whatever its method.
pub proof fn law_notifications_get_no_response(req: Tree)
    requires
        req.get("id"@) is None,
    ensures
        handle_request_spec(req) == HandledView::Silent,
{
}

/// A request without a method, or with one that is not known, is answered with an error of
/// its own code; the message names the method.
pub proof fn law_unknown_requests_are_rejected(req: Tree, id: Tree, method: Seq<char>)
    requires
        req.get("id"@) == Some(id),
    ensures
        !some_text(req.get("method"@)) ==> rejects(
            handle_request_spec(req),
            id,
            -32600,
            "Invalid request: missing or non-string method"@,
        ),
        is_text(req.get("method"@), method) && method != "initialize"@ && method != "tools/list"@
            && method != "tools/call"@ && method != "ping"@ ==> rejects(
            handle_request_spec(req),
            id,
            -32601,
            "Method not found: "@ + method,
        ),
{
    lemma_rejects_with(id, (-32600) as i64, "Invalid request: missing or non-string method"@);
    lemma_rejects_with(id, (-32601) as i64, "Method not found: "@ + method);
}

/// Whether a value says what the server is: the revision of the protocol, that it offers
/// tools, its name and its version.
pub open spec fn tells_server(t: Tree) -> bool {
    &&& has_members(t, 3)
    &&& is_text(t.get("protocolVersion"@), "2024-11-05"@)
    &&& t.get("capabilities"@) matches Some(c) && has_members(c, 1) && (c.get(
        "tools"@,
    ) matches Some(tools) && has_members(tools, 0))
    &&& t.get("serverInfo"@) matches Some(s) && has_members(s, 2) && is_text(
        s.get("name"@),
        "pdf-mcp"@,
    ) && is_text(s.get("version"@), "0.1.0"@)
}

proof fn lemma_server()
    ensures
        tells_server(server_spec()),
{
    reveal_strlit("protocolVersion");
    reveal_strlit("capabilities");
    reveal_strlit("serverInfo");
    assert("protocolVersion"@.len() == 15 && "capabilities"@.len() == 12 && "serverInfo"@.len()
        == 10);
    reveal_with_fuel(find, 4);
    assert(PROTOCOL_VERSION@ == "2024-11-05"@ && SERVER_NAME@ == "pdf-mcp"@ && SERVER_VERSION@
        == "0.1.0"@);
    let info = server_spec().get("serverInfo"@)->0;
    assert(is_text(info.get("name"@), "pdf-mcp"@) && is_text(info.get("version"@), "0.1.0"@)) by {
        reveal_strlit("name");
        reveal_strlit("version");
        assert("name"@.len() == 4 && "version"@.len() == 7);
    }
}

/// `initialize` is answered with what the server is, `ping` with nothing, `tools/list` with
/// the list of the tools.
pub proof fn law_methods_are_answered(req: Tree, id: Tree)
    requires
        req.get("id"@) == Some(id),
    ensures
        is_text(req.get("method"@), "initialize"@) ==> exists|server: Tree|
            responds(handle_request_spec(req), id, server) && #[trigger] tells_server(server),
        is_text(req.get("method"@), "ping"@) ==> exists|nothing: Seq<(Seq<char>, Tree)>|
            nothing.len() == 0 && #[trigger] responds(
                handle_request_spec(req),
                id,
                Tree::Object(nothing),
            ),
        is_text(req.get("method"@), "tools/list"@) ==> responds(
            handle_request_spec(req),
            id,
            tools_list_spec(),
        ),
{
    lemma_methods();
    lemma_server();
    lemma_responds_with(id, server_spec());
    lemma_responds_with(id, Tree::Object(seq![]));
    lemma_responds_with(id, tools_list_spec());
}

/// `tools/call` is answered with the answer of the call, or waits for what the call needs,
/// and keeps its id. Without parameters the call has no name.
pub proof fn law_tool_calls_are_made(req: Tree, id: Tree, params: Tree)
    requires
        req.get("id"@) == Some(id),
        is_text(req.get("method"@), "tools/call"@),
    ensures
        req.get("params"@) == Some(params) ==> match handle_tool_call_spec(params) {
            TurnView::Reply(v) => responds(handle_request_spec(req), id, v),
            TurnView::Ask(call) => handle_request_spec(req) == (HandledView::Work { id, call }),
        },
        req.get("params"@) is None ==> exists|v: Tree| #[trigger]
            responds(handle_request_spec(req), id, v) && says_error(v, "Missing tool name"@),
{
    lemma_methods();
    if let TurnView::Reply(v) = handle_tool_call_spec(params) {
        lemma_responds_with(id, v);
    }
    if req.get("params"@) is None {
        let none = Tree::Object(seq![]);
        assert(none.get("name"@) is None);
        let v = tool_error_spec("Missing tool name"@);
        law_answers_hold_what_they_are_made_of("Missing tool name"@, seq![], seq![]);
        lemma_responds_with(id, v);
    }
}

/// A request that is under way is answered with the answer of its call, under its own id,
/// or goes on waiting; one that is refused is answered with an error.
pub proof fn law_requests_under_way_keep_their_id(id: Tree, turn: TurnView, e: Seq<char>)
    ensures
        match turn {
            TurnView::Reply(v) => responds(turned(id, turn), id, v),
            TurnView::Ask(call) => turned(id, turn) == (HandledView::Work { id, call }),
        },
        exists|v: Tree| #[trigger] responds(turned(id, failed(e)), id, v) && says_error(v, e),
{
    if let TurnView::Reply(v) = turn {
        lemma_responds_with(id, v);
    }
    let v = tool_error_spec(e);
    law_answers_hold_what_they_are_made_of(e, seq![], seq![]);
    lemma_responds_with(id, v);
}

/// A line of white space is passed over. Any other line is the request that it holds, or is
/// answered with an error that has no id.
pub proof fn law_lines_are_requests(line: Seq<char>, parsed: Option<Tree>)
    ensures
        (forall|i: int| 0 <= i < line.len() ==> white(#[trigger] line[i])) ==> handle_line_spec(
            line,
            parsed,
        ) == HandledView::Silent,
        (exists|i: int| 0 <= i < line.len() && !white(#[trigger] line[i])) ==> match parsed {
            Some(req) => handle_line_spec(line, parsed) == handle_request_spec(req),
            None => rejects(handle_line_spec(line, parsed), Tree::Null, -32700, "Parse error"@),
        },
{
    law_blank_is_all_white(line);
    lemma_rejects_with(Tree::Null, (-32700) as i64, "Parse error"@);
}

/// The characters that are white space: those with the property `White_Space`.
pub proof fn law_white_space_is_white(c: char)
    ensures
        white(c) <==> (c == ' ' || c == '\t' || c == '\n' || c == '\r' || c as u32 == 0x0b
            || c as u32 == 0x0c || c as u32 == 0x85 || c as u32 == 0xa0 || c as u32 == 0x1680
            || 0x2000 <= c as u32 <= 0x200a || c as u32 == 0x2028 || c as u32 == 0x2029
            || c as u32 == 0x202f || c as u32 == 0x205f || c as u32 == 0x3000),
{
}

/// A document that is called for is opened unless it is the one that is there; once it is
/// open it is the one that is there. Where it cannot be opened the message names it, and
/// the one that was there stays.
pub proof fn law_documents_are_opened_once(
    cached: Option<Seq<char>>,
    path: Seq<char>,
    opened: Result<(), Seq<char>>,
)
    ensures
        cached == Some(path) ==> open_doc_spec(cached, path, opened) == (
            Some(path),
            Ok::<(), Seq<char>>(()),
        ),
        cached != Some(path) && opened is Ok ==> open_doc_spec(cached, path, opened) == (
            Some(path),
            Ok::<(), Seq<char>>(()),
        ),
        cached != Some(path) ==> (opened matches Err(e) ==> open_doc_spec(cached, path, opened) == (
            cached,
            Err::<(), Seq<char>>("Failed to open "@ + path + ": "@ + e),
        )),
{
}

} // verus!
