//! The tools, worked through step by step against a document held in memory.
use pdf_mcp::args::{float_arg, page_num};
use pdf_mcp::call::{
    advance, begin, can_advance, handle_tool_call, Answer, Call, Need, Turn,
};
use pdf_mcp::content::{image_content, quad_bbox, rect_json, text_content, tool_error};
use pdf_mcp::document::{
    Block, BlockKind, DocumentInfo, Link, OutlineItem, Pixmap, Point, Quad, Rect, TextChar,
};
use pdf_mcp::float::{Double, Single};
use pdf_mcp::json::{Json, Number};
use pdf_mcp::picture::{can_resize, encode_image, Picture};
use pdf_mcp::profile::{can_profile, content_bounds, perp_range, profile};
use pdf_mcp::protocol::{handle_line, handle_request, Handled};
use pdf_mcp::render::{can_render, crop, region, render_scale, Region};
use pdf_mcp::resize::resize_dims;
use pdf_mcp::tools::{tools_list, Tool};
use serde_json::Value;
use std::cell::RefCell;

fn f(x: f32) -> Single {
    Single { bits: x.to_bits() }
}

fn to_json(v: &Value) -> Json {
    match v {
        Value::Null => Json::Null,
        Value::Bool(b) => Json::Bool(*b),
        Value::Number(n) => {
            if let Some(u) = n.as_u64() {
                Json::Number(Number::PosInt(u))
            } else if let Some(i) = n.as_i64() {
                Json::Number(Number::NegInt(i))
            } else {
                Json::Number(Number::Float(Double { bits: n.as_f64().unwrap().to_bits() }))
            }
        }
        Value::String(s) => Json::Text(s.clone()),
        Value::Array(a) => Json::Array(a.iter().map(to_json).collect()),
        Value::Object(m) => {
            Json::Object(m.iter().map(|(k, v)| (k.clone(), to_json(v))).collect())
        }
    }
}

fn to_value(j: &Json) -> Value {
    match j {
        Json::Null => Value::Null,
        Json::Bool(b) => Value::Bool(*b),
        Json::Number(Number::PosInt(u)) => Value::from(*u),
        Json::Number(Number::NegInt(i)) => Value::from(*i),
        Json::Number(Number::Float(d)) => Value::from(f64::from_bits(d.bits)),
        Json::Text(s) => Value::String(s.clone()),
        Json::Array(a) => Value::Array(a.iter().map(to_value).collect()),
        Json::Object(m) => {
            Value::Object(m.iter().map(|(k, v)| (k.clone(), to_value(v))).collect())
        }
    }
}

fn parse(s: &str) -> Value {
    serde_json::from_str(s).unwrap()
}

fn json(s: &str) -> Json {
    to_json(&parse(s))
}

/// A document of one page, with text lines at given heights.
struct Doc {
    width: f32,
    height: f32,
    lines: Vec<(f32, f32, &'static str)>,
    written: RefCell<Vec<(String, Vec<u8>)>>,
    scales: RefCell<Vec<f32>>,
    refuse_write: bool,
}

fn open_test_doc() -> Doc {
    Doc {
        width: 612.0,
        height: 792.0,
        lines: vec![(72.0, 100.0, "Hello World"), (72.0, 120.0, "Test PDF for pdf-mcp")],
        written: RefCell::new(Vec::new()),
        scales: RefCell::new(Vec::new()),
        refuse_write: false,
    }
}

impl Doc {
    fn on_page<T>(&self, page: i32, v: T) -> Result<T, String> {
        if page == 0 {
            Ok(v)
        } else {
            Err(format!("invalid page number: {page}"))
        }
    }

    fn blocks(&self) -> Vec<Block> {
        let lines: Vec<Vec<TextChar>> = self
            .lines
            .iter()
            .map(|(x, y, s)| {
                s.chars()
                    .enumerate()
                    .map(|(i, c)| TextChar {
                        ch: Some(c),
                        origin: Point { x: f(x + 7.0 * i as f32), y: f(*y) },
                    })
                    .collect()
            })
            .collect();
        let text = Rect { x0: f(72.0), y0: f(88.0), x1: f(220.0), y1: f(124.0) };
        let image = Rect { x0: f(300.0), y0: f(300.0), x1: f(400.0), y1: f(400.0) };
        vec![
            Block { kind: BlockKind::Text, bounds: text, lines },
            Block { kind: BlockKind::Image, bounds: image, lines: vec![] },
            Block { kind: BlockKind::Other("Grid".to_string()), bounds: image, lines: vec![] },
        ]
    }

    fn pixmap(&self, scale: f32) -> Pixmap {
        let width = (self.width * scale).round() as u32;
        let height = (self.height * scale).round() as u32;
        let mut samples = vec![255u8; (width * height * 3) as usize];
        for row in 0..height {
            for col in 0..width {
                let (x, y) = (col as f32 / scale, row as f32 / scale);
                if (72.0..220.0).contains(&x) && (90.0..121.0).contains(&y) {
                    let off = ((row * width + col) * 3) as usize;
                    samples[off] = 10;
                    samples[off + 1] = 20;
                    samples[off + 2] = 30;
                }
            }
        }
        Pixmap { width, height, channels: 3, stride: width * 3, samples }
    }

    fn answer(&self, need: &Need) -> Answer {
        match need {
            Need::Document { .. } => Answer::Document(Ok(())),
            Need::Info => Answer::Info(Ok(DocumentInfo {
                page_count: 1,
                title: "Test".to_string(),
                author: String::new(),
                subject: String::new(),
                keywords: String::new(),
                creator: String::new(),
                producer: String::new(),
                pages: vec![Some(Rect {
                    x0: f(0.0),
                    y0: f(0.0),
                    x1: f(self.width),
                    y1: f(self.height),
                })],
            })),
            Need::PageText { page } => {
                let text: String = self.lines.iter().map(|(_, _, s)| format!("{s}\n")).collect();
                Answer::Text(self.on_page(*page, text))
            }
            Need::PageCount => Answer::Count(Ok(1)),
            Need::Hits { page, query, limit } => {
                let mut hits = Vec::new();
                for (x, y, s) in &self.lines {
                    for (i, _) in s.match_indices(*query).take(*limit as usize) {
                        let (x0, x1) = (x + 7.0 * i as f32, x + 7.0 * (i + query.len()) as f32);
                        hits.push(Quad {
                            ul: Point { x: f(x0), y: f(y - 12.0) },
                            ur: Point { x: f(x1), y: f(y - 12.0) },
                            ll: Point { x: f(x0), y: f(*y) },
                            lr: Point { x: f(x1), y: f(*y) },
                        });
                    }
                }
                Answer::Hits(self.on_page(*page, hits))
            }
            Need::Pixmap { page, scale } => {
                let scale = f32::from_bits(scale.bits);
                self.scales.borrow_mut().push(scale);
                Answer::Pixmap(self.on_page(*page, self.pixmap(scale)))
            }
            Need::TextPage { page } => Answer::Blocks(self.on_page(*page, self.blocks())),
            Need::Outline => Answer::Outline(Ok(vec![])),
            Need::Links { page } => Answer::Links(self.on_page(*page, vec![])),
            Need::WriteFile { path, bytes } => {
                if self.refuse_write {
                    return Answer::Written(Err("disk full".to_string()));
                }
                self.written.borrow_mut().push((path.to_string(), bytes.to_vec()));
                Answer::Written(Ok(()))
            }
            Need::PrettyText { value } => {
                Answer::Pretty(serde_json::to_string_pretty(&to_value(value)).unwrap())
            }
        }
    }
}

fn drive(mut turn: Turn, doc: &Doc) -> Value {
    loop {
        match turn {
            Turn::Reply(v) => return to_value(&v),
            Turn::Ask(call) => {
                let answer = doc.answer(&call.need());
                assert!(can_advance(&call, &answer));
                turn = advance(call, answer);
            }
        }
    }
}

fn run(tool: Tool, doc: &Doc, args: &str) -> Result<Value, String> {
    let v = drive(begin(tool, json(args)), doc);
    if v["isError"] == true {
        Err(v["content"][0]["text"].as_str().unwrap().to_string())
    } else {
        Ok(v)
    }
}

fn text_of(v: &Value) -> String {
    v["content"][0]["text"].as_str().unwrap().to_string()
}

fn respond(req: &str) -> Option<Value> {
    match handle_request(&json(req)) {
        Handled::Silent => None,
        Handled::Respond(v) => Some(to_value(&v)),
        Handled::Work(job) => {
            let doc = open_test_doc();
            let mut job = job;
            loop {
                let answer = doc.answer(&job.need());
                assert!(job.can_advance(&answer));
                match job.advance(answer) {
                    Handled::Silent => return None,
                    Handled::Respond(v) => return Some(to_value(&v)),
                    Handled::Work(next) => job = next,
                }
            }
        }
    }
}

fn reply(params: &str) -> Value {
    match handle_tool_call(&json(params)) {
        Turn::Reply(v) => to_value(&v),
        Turn::Ask(_) => panic!("the call waits for a document"),
    }
}

// Sizes and ranges

#[test]
fn test_resize_dims_width_only() {
    assert_eq!(resize_dims(100, 200, Some(50), None), Some((50, 100)));
}

#[test]
fn test_resize_dims_height_only() {
    assert_eq!(resize_dims(100, 200, None, Some(100)), Some((50, 100)));
}

#[test]
fn test_resize_dims_width_takes_priority() {
    assert_eq!(resize_dims(100, 200, Some(50), Some(999)), Some((50, 100)));
}

#[test]
fn test_resize_dims_none() {
    assert_eq!(resize_dims(100, 200, None, None), None);
}

#[test]
fn test_resize_dims_upscale() {
    assert_eq!(resize_dims(10, 20, Some(100), None), Some((100, 200)));
}

#[test]
fn test_perp_range_no_offset() {
    let args = json("{}");
    assert_eq!(perp_range(&args, 100).unwrap(), (0, 100));
}

#[test]
fn test_perp_range_with_offset() {
    let args = json(r#"{"offset": 50.0}"#);
    let (lo, hi) = perp_range(&args, 100).unwrap();
    assert!(lo < 50 && hi > 50);
    assert_eq!((lo, hi), (45, 56));
}

#[test]
fn test_perp_range_offset_at_zero() {
    let args = json(r#"{"offset": 0.0, "band_width": 10.0}"#);
    let (lo, _hi) = perp_range(&args, 100).unwrap();
    assert_eq!(lo, 0);
}

#[test]
fn test_perp_range_negative_offset() {
    let args = json(r#"{"offset": -10.0}"#);
    let (lo, _hi) = perp_range(&args, 100).unwrap();
    assert_eq!(lo, 0);
}

#[test]
fn test_perp_range_beyond_dim() {
    let args = json(r#"{"offset": 500.0, "band_width": 10.0}"#);
    let (_lo, hi) = perp_range(&args, 100).unwrap();
    assert_eq!(hi, 100);
}

#[test]
fn narrow_band_is_one_point_wide() {
    let args = json(r#"{"offset": 7.9, "band_width": 0}"#);
    assert_eq!(perp_range(&args, 100).unwrap(), (7, 8));
    let args = json(r#"{"offset": 7, "band_width": -3}"#);
    assert_eq!(perp_range(&args, 100).unwrap(), (7, 8));
    let args = json(r#"{"offset": 7, "band_width": 3}"#);
    assert_eq!(perp_range(&args, 100).unwrap(), (6, 9));
}

#[test]
fn band_of_an_empty_page_is_empty() {
    let args = json(r#"{"offset": 7}"#);
    assert_eq!(perp_range(&args, 0).unwrap(), (0, 0));
}

#[test]
fn band_wider_than_the_page_takes_in_all_of_it() {
    for band in ["101", "1000000", "1e30", "1e300", "18446744073709551615"] {
        let args = json(&format!(r#"{{"offset": 50.0, "band_width": {band}}}"#));
        assert_eq!(perp_range(&args, 100).unwrap(), (0, 100));
    }
    let args = json(r#"{"offset": 1e300, "band_width": 1e300}"#);
    assert_eq!(perp_range(&args, 100).unwrap(), (0, 100));
    let doc = open_test_doc();
    let args = r#"{"page": 0, "axis": "vertical", "offset": 7, "band_width": 1e300}"#;
    assert!(run(Tool::IntensityProfile, &doc, args).is_ok());
}

#[test]
fn band_is_ten_points_wide_by_default() {
    for offset in ["0", "3.5", "50", "99", "1000"] {
        let plain = json(&format!(r#"{{"offset": {offset}}}"#));
        let ten = json(&format!(r#"{{"offset": {offset}, "band_width": 10}}"#));
        assert_eq!(perp_range(&plain, 100), perp_range(&ten, 100));
    }
    assert_eq!(perp_range(&json(r#"{"band_width": 3}"#), 100).unwrap(), (0, 100));
}

// Answers and arguments

#[test]
fn test_tool_error_shape() {
    let v = to_value(&tool_error("something broke"));
    assert_eq!(v["isError"], true);
    assert_eq!(v["content"][0]["type"], "text");
    assert_eq!(v["content"][0]["text"], "something broke");
}

#[test]
fn test_text_content_shape() {
    let v = to_value(&text_content("hello"));
    assert_eq!(v["content"][0]["type"], "text");
    assert_eq!(v["content"][0]["text"], "hello");
    assert!(v["isError"].is_null());
}

#[test]
fn image_content_is_base64() {
    for (data, text) in [
        (&b""[..], ""),
        (&b"f"[..], "Zg=="),
        (&b"fo"[..], "Zm8="),
        (&b"foo"[..], "Zm9v"),
        (&b"foob"[..], "Zm9vYg=="),
        (&[0xfb, 0xff, 0xbe][..], "+/++"),
    ] {
        let v = to_value(&image_content(data, "image/png"));
        assert_eq!(v["content"][0]["type"], "image");
        assert_eq!(v["content"][0]["mimeType"], "image/png");
        assert_eq!(v["content"][0]["data"], text);
        assert!(v["isError"].is_null());
    }
}

#[test]
fn test_rect_json() {
    let r = to_value(&rect_json(f(1.0), f(2.0), f(3.0), f(4.0)));
    assert_eq!(r["x0"], 1.0);
    assert_eq!(r["y0"], 2.0);
    assert_eq!(r["x1"], 3.0);
    assert_eq!(r["y1"], 4.0);
}

#[test]
fn rect_json_has_null_for_what_is_not_finite() {
    let r = to_value(&rect_json(f(f32::NAN), f(f32::INFINITY), f(0.1), f(-0.0)));
    assert!(r["x0"].is_null());
    assert!(r["y0"].is_null());
    assert_eq!(r["x1"], 0.1f32 as f64);
    assert_eq!(r["y1"], 0.0);
}

#[test]
fn quad_bbox_takes_the_outer_edges() {
    let q = Quad {
        ul: Point { x: f(1.0), y: f(5.0) },
        ur: Point { x: f(9.0), y: f(4.0) },
        ll: Point { x: f(0.5), y: f(20.0) },
        lr: Point { x: f(10.0), y: f(21.0) },
    };
    assert_eq!(quad_bbox(&q), (f(0.5), f(4.0), f(10.0), f(21.0)));
}

#[test]
fn quad_bbox_of_turned_text() {
    let q = Quad {
        ul: Point { x: f(100.0), y: f(100.0) },
        ur: Point { x: f(0.0), y: f(100.0) },
        ll: Point { x: f(100.0), y: f(80.0) },
        lr: Point { x: f(0.0), y: f(80.0) },
    };
    assert_eq!(quad_bbox(&q), (f(0.0), f(80.0), f(100.0), f(100.0)));
}

#[test]
fn test_page_num_present() {
    let args = json(r#"{"page": 5}"#);
    assert_eq!(page_num(&args).unwrap(), 5);
}

#[test]
fn test_page_num_missing() {
    let args = json("{}");
    assert!(page_num(&args).is_err());
    assert_eq!(page_num(&args).unwrap_err(), "Missing required parameter: page");
}

#[test]
fn pages_that_cannot_be_are_refused() {
    for n in ["4294967296", "2147483648", "-2147483649", "18446744073709551615"] {
        let args = json(&format!(r#"{{"page": {n}, "query": "Hello"}}"#));
        let message = format!("No such page: {n}");
        assert_eq!(page_num(&args).unwrap_err(), message);
        let doc = open_test_doc();
        let args = format!(r#"{{"page": {n}, "query": "Hello"}}"#);
        assert_eq!(run(Tool::GetPageText, &doc, &args).unwrap_err(), message);
        assert_eq!(run(Tool::Search, &doc, &args).unwrap_err(), message);
    }
    assert_eq!(page_num(&json(r#"{"page": 2147483647}"#)).unwrap(), i32::MAX);
    assert_eq!(page_num(&json(r#"{"page": -1}"#)).unwrap(), -1);
    assert!(page_num(&json(r#"{"page": 1.0}"#)).is_err());
    assert!(page_num(&json(r#"{"page": "1"}"#)).is_err());
}

#[test]
fn test_float_arg_present() {
    let args = json(r#"{"x": 3.14}"#);
    assert!((f32::from_bits(float_arg(&args, "x").unwrap().bits) - 3.14).abs() < 0.01);
}

#[test]
fn test_float_arg_missing() {
    let args = json("{}");
    assert!(float_arg(&args, "x").is_err());
    assert_eq!(float_arg(&args, "x").unwrap_err(), "Missing required parameter: x");
}

// Requests

#[test]
fn test_notification_no_response() {
    let req = r#"{"jsonrpc": "2.0", "method": "notifications/initialized"}"#;
    assert!(respond(req).is_none());
}

#[test]
fn test_missing_method() {
    let req = r#"{"jsonrpc": "2.0", "id": 1}"#;
    let resp = respond(req).unwrap();
    assert_eq!(resp["error"]["code"], -32600);
    assert_eq!(resp["error"]["message"], "Invalid request: missing or non-string method");
}

#[test]
fn test_unknown_method() {
    let req = r#"{"jsonrpc": "2.0", "id": 1, "method": "bogus"}"#;
    let resp = respond(req).unwrap();
    assert_eq!(resp["error"]["code"], -32601);
    assert_eq!(resp["error"]["message"], "Method not found: bogus");
}

#[test]
fn test_initialize() {
    let req = r#"{"jsonrpc": "2.0", "id": 1, "method": "initialize", "params": {}}"#;
    let resp = respond(req).unwrap();
    let result = &resp["result"];
    assert_eq!(result["serverInfo"]["name"], "pdf-mcp");
    assert!(result["protocolVersion"].is_string());
    assert!(result["capabilities"]["tools"].is_object());
}

#[test]
fn test_ping() {
    let req = r#"{"jsonrpc": "2.0", "id": 1, "method": "ping", "params": {}}"#;
    let resp = respond(req).unwrap();
    assert!(resp["result"].is_object());
    assert!(resp["error"].is_null());
}

#[test]
fn response_has_the_id_of_the_request() {
    for id in ["1", "-7", "1.5", "null", "\"a\"", "[1]"] {
        for method in ["\"ping\"", "\"bogus\"", "\"tools/list\"", "\"tools/call\"", "5"] {
            let req = format!(r#"{{"id": {id}, "method": {method}}}"#);
            let resp = respond(&req).unwrap();
            assert_eq!(resp["id"], parse(id));
            assert_eq!(resp["jsonrpc"], "2.0");
            assert!(resp["result"].is_null() != resp["error"].is_null());
        }
    }
}

#[test]
fn tool_call_goes_through_a_request() {
    let req = r#"{"id": 9, "method": "tools/call",
        "params": {"name": "get_page_text", "arguments": {"path": "/tmp/x.pdf", "page": 0}}}"#;
    let resp = respond(req).unwrap();
    assert_eq!(resp["id"], 9);
    assert!(text_of(&resp["result"]).contains("Hello World"));
}

#[test]
fn requests_beyond_the_limits_are_refused() {
    let req = json(
        r#"{"id": 4, "method": "tools/call", "params": {"name": "render",
            "arguments": {"path": "/tmp/x.pdf", "page": 0, "width": 4294967295}}}"#,
    );
    let doc = open_test_doc();
    let mut handled = handle_request(&req);
    loop {
        match handled {
            Handled::Work(job) => {
                let answer = doc.answer(&job.need());
                handled = if job.can_advance(&answer) {
                    job.advance(answer)
                } else {
                    job.refuse()
                };
            }
            Handled::Respond(v) => {
                let v = to_value(&v);
                assert_eq!(v["id"], 4);
                assert_eq!(v["result"]["isError"], true);
                assert_eq!(
                    text_of(&v["result"]),
                    "The page or the picture is beyond the limits of the tool"
                );
                break;
            }
            Handled::Silent => panic!("no response"),
        }
    }
}

#[test]
fn requests_that_are_no_objects_are_notifications() {
    assert!(respond("[1, 2]").is_none());
    assert!(respond("\"id\"").is_none());
}

#[test]
fn lines_that_are_not_json_are_answered() {
    assert_eq!(handle_line("  \t", None), Handled::Silent);
    assert_eq!(handle_line("", None), Handled::Silent);
    match handle_line("{", None) {
        Handled::Respond(v) => {
            let v = to_value(&v);
            assert_eq!(v["error"]["code"], -32700);
            assert_eq!(v["error"]["message"], "Parse error");
            assert!(v["id"].is_null());
        }
        other => panic!("{other:?}"),
    }
    let ping = json(r#"{"id": 1, "method": "ping"}"#);
    assert!(matches!(handle_line("x", Some(&ping)), Handled::Respond(_)));
}

#[test]
fn test_tools_list_count() {
    let list = to_value(&tools_list());
    let tools = list["tools"].as_array().unwrap();
    assert_eq!(tools.len(), 9);
}

#[test]
fn test_tools_list_all_have_path() {
    let list = to_value(&tools_list());
    for tool in list["tools"].as_array().unwrap() {
        let props = &tool["inputSchema"]["properties"];
        assert!(props["path"].is_object(), "tool {} missing path prop", tool["name"]);
        let req = tool["inputSchema"]["required"].as_array().unwrap();
        assert!(
            req.contains(&Value::from("path")),
            "tool {} missing path in required",
            tool["name"]
        );
        assert_eq!(req[0], "path");
    }
}

#[test]
fn listed_tools_are_the_known_tools() {
    let list = to_value(&tools_list());
    for tool in list["tools"].as_array().unwrap() {
        let name = tool["name"].as_str().unwrap();
        assert_eq!(Tool::from_name(name).unwrap().name(), name);
    }
    assert_eq!(Tool::from_name("bogus"), None);
    assert_eq!(Tool::from_name("Render"), None);
}

#[test]
fn render_parameters_are_listed() {
    let v = to_value(&Tool::Render.describe());
    let props = &v["inputSchema"]["properties"];
    assert_eq!(props.as_object().unwrap().len(), 12);
    assert_eq!(props["format"]["enum"], parse(r#"["png", "jpeg"]"#));
    assert_eq!(props["dpi"]["type"], "number");
    assert_eq!(props["path"]["description"], "Absolute path to the PDF file");
    assert_eq!(v["inputSchema"]["required"], parse(r#"["path", "page"]"#));
}

#[test]
fn region_parameters_are_listed() {
    assert_eq!(
        to_value(&Tool::ExtractRegionText.describe()),
        parse(
            r#"{"name": "extract_region_text",
            "description": "Extract text from a specific rectangular region of a page. Coordinates in PDF points.",
            "inputSchema": {"type": "object", "properties": {
                "path": {"type": "string", "description": "Absolute path to the PDF file"},
                "page": {"type": "integer", "description": "Page number (0-indexed)"},
                "x0": {"type": "number"}, "y0": {"type": "number"},
                "x1": {"type": "number"}, "y1": {"type": "number"}},
            "required": ["path", "page", "x0", "y0", "x1", "y1"]}}"#
        )
    );
}

#[test]
fn test_tool_call_missing_name() {
    let resp = reply(r#"{"arguments": {"path": "/tmp/x.pdf"}}"#);
    assert_eq!(resp["isError"], true);
    assert_eq!(text_of(&resp), "Missing tool name");
}

#[test]
fn test_tool_call_missing_path() {
    let resp = reply(r#"{"name": "get_info", "arguments": {}}"#);
    assert_eq!(resp["isError"], true);
    assert_eq!(text_of(&resp), "Missing required parameter: path");
    assert_eq!(text_of(&reply(r#"{"name": "get_info"}"#)), "Missing required parameter: path");
}

#[test]
fn test_tool_call_unknown_tool() {
    let resp = reply(r#"{"name": "bogus", "arguments": {"path": "/tmp/x.pdf"}}"#);
    assert_eq!(resp["isError"], true);
    assert_eq!(text_of(&resp), "Unknown tool: bogus");
}

#[test]
fn document_is_called_for_before_the_arguments_are_read() {
    let params = json(r#"{"name": "render", "arguments": {"path": "/tmp/x.pdf"}}"#);
    match handle_tool_call(&params) {
        Turn::Ask(call) => {
            assert_eq!(call.need(), Need::Document { path: "/tmp/x.pdf" });
            let bad = Answer::Document(Err("Failed to open /tmp/x.pdf: gone".to_string()));
            match advance(call, bad) {
                Turn::Reply(v) => {
                    assert_eq!(to_value(&v)["isError"], true);
                    assert_eq!(text_of(&to_value(&v)), "Failed to open /tmp/x.pdf: gone");
                }
                Turn::Ask(_) => panic!("the call goes on"),
            }
        }
        Turn::Reply(_) => panic!("the call is answered"),
    }
}

// Tools

#[test]
fn test_get_info() {
    let doc = open_test_doc();
    let result = run(Tool::GetInfo, &doc, "{}").unwrap();
    let info = parse(&text_of(&result));
    assert_eq!(info["page_count"], 1);
    assert_eq!(info["pages"][0]["width"], 612.0);
    assert_eq!(info["pages"][0]["height"], 792.0);
    assert_eq!(info["author"], "");
    assert_eq!(info["title"], "Test");
}

#[test]
fn unreadable_pages_are_left_out() {
    let page = |w: f32| Some(Rect { x0: f(10.0), y0: f(0.0), x1: f(w), y1: f(5.0) });
    let info = DocumentInfo {
        page_count: 3,
        title: "t".to_string(),
        author: "a".to_string(),
        subject: "s".to_string(),
        keywords: "k".to_string(),
        creator: "c".to_string(),
        producer: "p".to_string(),
        pages: vec![page(20.0), None, page(30.0)],
    };
    let v = to_value(&pdf_mcp::info::tool_get_info(&info));
    assert_eq!(
        v["pages"],
        parse(r#"[{"page": 0, "width": 10.0, "height": 5.0},
                  {"page": 2, "width": 20.0, "height": 5.0}]"#)
    );
    assert_eq!(v["keywords"], "k");
    assert_eq!(v["producer"], "p");
}

#[test]
fn test_get_page_text() {
    let doc = open_test_doc();
    let result = run(Tool::GetPageText, &doc, r#"{"page": 0}"#).unwrap();
    let text = text_of(&result);
    assert!(text.contains("Hello World"));
    assert!(text.contains("Test PDF for pdf-mcp"));
}

#[test]
fn test_get_page_text_invalid_page() {
    let doc = open_test_doc();
    assert!(run(Tool::GetPageText, &doc, r#"{"page": 999}"#).is_err());
    assert_eq!(
        run(Tool::GetPageText, &doc, r#"{"page": 999}"#).unwrap_err(),
        "invalid page number: 999"
    );
}

#[test]
fn test_search_found() {
    let doc = open_test_doc();
    let result = run(Tool::Search, &doc, r#"{"query": "Hello"}"#).unwrap();
    let data = parse(&text_of(&result));
    assert_eq!(data["match_count"], 1);
    assert!(data["matches"][0]["bbox"]["x0"].as_f64().unwrap() > 0.0);
    assert!(data["truncated"].is_null());
}

#[test]
fn test_search_not_found() {
    let doc = open_test_doc();
    let result = run(Tool::Search, &doc, r#"{"query": "ZZZZNOTFOUND"}"#).unwrap();
    let data = parse(&text_of(&result));
    assert_eq!(data["match_count"], 0);
}

#[test]
fn test_search_specific_page() {
    let doc = open_test_doc();
    let result = run(Tool::Search, &doc, r#"{"query": "Hello", "page": 0}"#).unwrap();
    let data = parse(&text_of(&result));
    assert_eq!(data["match_count"], 1);
}

#[test]
fn search_without_a_query_is_refused() {
    let doc = open_test_doc();
    assert_eq!(
        run(Tool::Search, &doc, r#"{"page": 0}"#).unwrap_err(),
        "Missing required parameter: query"
    );
    assert!(run(Tool::Search, &doc, r#"{"query": "Hello", "page": 3}"#).is_err());
}

fn search_pages(counts: &[usize]) -> Value {
    let quad = |x: f32| Quad {
        ul: Point { x: f(x), y: f(1.0) },
        ur: Point { x: f(x + 1.0), y: f(1.0) },
        ll: Point { x: f(x), y: f(2.0) },
        lr: Point { x: f(x + 1.0), y: f(2.0) },
    };
    let mut turn = begin(Tool::Search, json(r#"{"query": "q"}"#));
    loop {
        let call = match turn {
            Turn::Ask(call) => call,
            Turn::Reply(v) => return parse(&text_of(&to_value(&v))),
        };
        let answer = match call.need() {
            Need::PageCount => Answer::Count(Ok(counts.len() as i32)),
            Need::Hits { page, query, limit } => {
                assert_eq!((query, limit), ("q", 500));
                Answer::Hits(Ok((0..counts[page as usize]).map(|i| quad(i as f32)).collect()))
            }
            Need::PrettyText { value } => Answer::Pretty(to_value(value).to_string()),
            other => panic!("{other:?}"),
        };
        turn = advance(call, answer);
    }
}

#[test]
fn search_visits_the_pages_in_order() {
    let v = search_pages(&[2, 0, 1]);
    assert_eq!(v["match_count"], 3);
    let pages: Vec<i64> =
        v["matches"].as_array().unwrap().iter().map(|m| m["page"].as_i64().unwrap()).collect();
    assert_eq!(pages, vec![0, 0, 2]);
    assert_eq!(v["matches"][1]["bbox"], parse(r#"{"x0": 1.0, "y0": 1.0, "x1": 2.0, "y1": 2.0}"#));
    assert_eq!(search_pages(&[])["match_count"], 0);
}

#[test]
fn search_is_truncated_where_a_page_is_full() {
    assert!(search_pages(&[499, 499])["truncated"].is_null());
    assert_eq!(search_pages(&[1, 500, 1])["truncated"], true);
    assert_eq!(search_pages(&[1, 500, 1])["match_count"], 502);
}

#[test]
fn test_render_png() {
    let doc = open_test_doc();
    let result = run(Tool::Render, &doc, r#"{"page": 0}"#).unwrap();
    assert_eq!(result["content"][0]["type"], "image");
    assert_eq!(result["content"][0]["mimeType"], "image/png");
    let data = result["content"][0]["data"].as_str().unwrap();
    assert!(!data.is_empty());
    assert!(data.starts_with("iVBORw0KGgo"));
}

#[test]
fn test_render_jpeg() {
    let doc = open_test_doc();
    let result =
        run(Tool::Render, &doc, r#"{"page": 0, "format": "jpeg", "quality": 50}"#).unwrap();
    assert_eq!(result["content"][0]["mimeType"], "image/jpeg");
    assert!(result["content"][0]["data"].as_str().unwrap().starts_with("/9j/"));
}

#[test]
fn test_render_with_resize() {
    let doc = open_test_doc();
    let result = run(Tool::Render, &doc, r#"{"page": 0, "width": 100}"#).unwrap();
    assert_eq!(result["content"][0]["type"], "image");
}

#[test]
fn test_render_with_roi() {
    let doc = open_test_doc();
    let args = r#"{"page": 0, "x0": 50, "y0": 50, "x1": 200, "y1": 200}"#;
    let result = run(Tool::Render, &doc, args).unwrap();
    assert_eq!(result["content"][0]["type"], "image");
}

#[test]
fn test_render_zero_area_roi() {
    let doc = open_test_doc();
    let args = r#"{"page": 0, "x0": 100, "y0": 100, "x1": 100, "y1": 100}"#;
    assert!(run(Tool::Render, &doc, args).is_err());
    assert_eq!(run(Tool::Render, &doc, args).unwrap_err(), "Region has zero area");
}

#[test]
fn test_render_to_file() {
    let doc = open_test_doc();
    let args = r#"{"page": 0, "output_path": "/tmp/dir/out.png"}"#;
    let result = run(Tool::Render, &doc, args).unwrap();
    let data = parse(&text_of(&result));
    assert_eq!(data["format"], "png");
    assert!(data["bytes"].as_u64().unwrap() > 0);
    let written = doc.written.borrow();
    assert_eq!(written.len(), 1);
    assert_eq!(written[0].0, "/tmp/dir/out.png");
    assert_eq!(data["bytes"], written[0].1.len() as u64);
    assert_eq!(data["path"], "/tmp/dir/out.png");
    assert_eq!(data["width"], 1275);
    assert_eq!(data["height"], 1650);
}

#[test]
fn test_render_dpi_capped() {
    let mut doc = open_test_doc();
    doc.width = 36.0;
    doc.height = 48.0;
    let args = r#"{"page": 0, "dpi": 10000, "width": 100}"#;
    let result = run(Tool::Render, &doc, args).unwrap();
    assert_eq!(result["content"][0]["type"], "image");
    assert_eq!(*doc.scales.borrow(), vec![1200.0f32 / 72.0]);
}

#[test]
fn resolution_is_capped_and_scaled() {
    let scale = |args: &str| f32::from_bits(render_scale(&json(args)).bits);
    assert_eq!(scale("{}"), 150.0f32 / 72.0);
    assert_eq!(scale(r#"{"dpi": 300}"#), 300.0f32 / 72.0);
    assert_eq!(scale(r#"{"dpi": 96.5}"#), 96.5f32 / 72.0);
    assert_eq!(scale(r#"{"dpi": 1e300}"#), 1200.0f32 / 72.0);
    assert_eq!(scale(r#"{"dpi": "high"}"#), 150.0f32 / 72.0);
    assert_eq!(scale(r#"{"dpi": -72}"#), -1.0);
}

#[test]
fn render_refusals() {
    let doc = open_test_doc();
    assert_eq!(run(Tool::Render, &doc, "{}").unwrap_err(), "Missing required parameter: page");
    assert_eq!(
        run(Tool::Render, &doc, r#"{"page": 0, "x0": 1, "y0": 1, "x1": 9}"#).unwrap_err(),
        "Missing required parameter: y1"
    );
    assert_eq!(
        run(Tool::Render, &doc, r#"{"page": 0, "x0": null}"#).unwrap_err(),
        "Missing required parameter: x0"
    );
    let mut doc = open_test_doc();
    doc.refuse_write = true;
    assert_eq!(
        run(Tool::Render, &doc, r#"{"page": 0, "output_path": "o.png"}"#).unwrap_err(),
        "Failed to write o.png: disk full"
    );
}

#[test]
fn render_sizes_are_reported() {
    let doc = open_test_doc();
    for (args, width, height) in [
        (r#"{"page": 0, "dpi": 72, "output_path": "o"}"#, 612, 792),
        (r#"{"page": 0, "dpi": 72, "width": 306, "output_path": "o"}"#, 306, 396),
        (r#"{"page": 0, "dpi": 72, "height": 396, "output_path": "o"}"#, 306, 396),
        (r#"{"page": 0, "dpi": 72, "width": 0, "output_path": "o"}"#, 1, 1),
        (r#"{"page": 0, "dpi": 72, "width": 612, "output_path": "o"}"#, 612, 792),
        (r#"{"page": 0, "dpi": 144, "x0": 10, "y0": 20, "x1": 60, "y1": 50, "output_path": "o"}"#, 100, 60),
        (r#"{"page": 0, "dpi": 72, "x0": 0, "y0": 0, "x1": 600, "y1": 6, "width": 140, "output_path": "o"}"#, 140, 1),
        (r#"{"page": 0, "dpi": 72, "x0": 0, "y0": 0, "x1": 600, "y1": 1, "width": 20, "output_path": "o"}"#, 20, 1),
        (r#"{"page": 0, "dpi": 72, "x0": 600, "y0": 0, "x1": 9999, "y1": 10, "output_path": "o"}"#, 12, 10),
    ] {
        let v = parse(&text_of(&run(Tool::Render, &doc, args).unwrap()));
        assert_eq!((v["width"].as_u64(), v["height"].as_u64()), (Some(width), Some(height)), "{args}");
        let written = doc.written.borrow();
        let img = image::load_from_memory(&written.last().unwrap().1).unwrap();
        assert_eq!((img.width() as u64, img.height() as u64), (width, height));
    }
}

#[test]
fn sizes_that_cannot_be_are_refused() {
    let doc = open_test_doc();
    for (args, message) in [
        (r#"{"page": 0, "dpi": 72, "width": 4294967301}"#, "Size out of range: 4294967301"),
        (r#"{"page": 0, "dpi": 72, "height": 4294967296}"#, "Size out of range: 4294967296"),
    ] {
        assert_eq!(run(Tool::Render, &doc, args).unwrap_err(), message);
    }
    let args = r#"{"page": 0, "dpi": 72, "width": 9, "height": 4294967296}"#;
    assert!(run(Tool::Render, &doc, args).is_ok());
}

#[test]
fn narrow_regions_are_widened() {
    let doc = open_test_doc();
    let args = r#"{"page": 0, "dpi": 72, "x0": 0, "y0": 0, "x1": 600, "y1": 1,
        "width": 3000000, "height": 1, "output_path": "o"}"#;
    let call = match begin(Tool::Render, json(args)) {
        Turn::Ask(call) => call,
        Turn::Reply(_) => panic!("the call is answered"),
    };
    assert!(can_advance(&call, &doc.answer(&call.need())));
}

#[test]
fn jpeg_files_have_the_reported_size() {
    for (width, height) in [(1, 1), (7, 3), (16, 16), (65535, 1), (1, 65535)] {
        let rgb = vec![90; (3 * width * height) as usize];
        let p = Picture { width, height, rgb };
        for quality in [0, 1, 50, 100] {
            let args = json(&format!(r#"{{"quality": {quality}}}"#));
            let (bytes, _) = encode_image(&p, "jpeg", &args).unwrap();
            let decoder =
                image::codecs::jpeg::JpegDecoder::new(std::io::Cursor::new(&bytes)).unwrap();
            let size = image::ImageDecoder::dimensions(&decoder);
            assert_eq!(size, (width, height));
        }
    }
    let doc = open_test_doc();
    let args = r#"{"page": 0, "format": "jpeg", "width": 33, "output_path": "o"}"#;
    let v = parse(&text_of(&run(Tool::Render, &doc, args).unwrap()));
    let written = doc.written.borrow();
    let img = image::load_from_memory(&written[0].1).unwrap();
    assert_eq!(v["width"], 33);
    assert_eq!((v["width"].as_u64(), v["height"].as_u64()),
        (Some(img.width() as u64), Some(img.height() as u64)));
}

#[test]
fn other_pixel_formats_are_refused() {
    let gray = || Pixmap { width: 1, height: 1, channels: 1, stride: 1, samples: vec![0] };
    let message = "Unexpected pixel format: 1 channels (expected >= 3)";
    for call in [
        Call::Render { page: 0, scale: f(1.0), args: json("{}") },
        Call::Profile { page: 0, axis: "diagonal".to_string(), args: json("{}") },
    ] {
        match advance(call, Answer::Pixmap(Ok(gray()))) {
            Turn::Reply(v) => assert_eq!(text_of(&to_value(&v)), message),
            Turn::Ask(_) => panic!("the call goes on"),
        }
    }
}

#[test]
fn pixmaps_that_are_not_complete_are_refused() {
    let short = Pixmap { width: 2, height: 2, channels: 3, stride: 6, samples: vec![0; 11] };
    assert!(!can_render(&json("{}"), f(1.0), &short));
    assert!(!can_profile("vertical", &short));
    assert!(can_profile("diagonal", &short));
    let whole = Pixmap { width: 2, height: 2, channels: 3, stride: 6, samples: vec![0; 12] };
    assert!(can_render(&json("{}"), f(1.0), &whole));
    let call = Call::Render { page: 0, scale: f(1.0), args: json("{}") };
    assert!(!can_advance(&call, &Answer::Pixmap(Ok(short))));
    assert!(!can_advance(&call, &Answer::Pretty(String::new())));
    assert!(can_advance(&call, &Answer::Pixmap(Err("no page".to_string()))));
}

#[test]
fn pictures_that_are_too_large_are_refused() {
    assert!(can_resize(10, 10, 20, 20));
    assert!(!can_resize(10, 10, u32::MAX, u32::MAX));
    assert!(can_resize(u32::MAX, u32::MAX, u32::MAX, u32::MAX));
    assert!(!can_resize(67108862, 1, 134217720, 2));
    assert!(can_resize(240000, 1, 3000000, 9));
    assert!(can_resize(600, 6, 4000000000, 1));
    assert!(can_resize(2097152, 1, 8388608, 1));
    assert!(!can_resize(2097152, 1, 8388609, 1));
    assert!(!can_resize(2097153, 1, 2, 1));
    assert!(can_resize(0, 5, 10, 10));
}

#[test]
fn crop_takes_the_pixels_of_the_region() {
    let samples: Vec<u8> = (0..48).collect();
    let pix = Pixmap { width: 3, height: 3, channels: 4, stride: 16, samples };
    let p = crop(&pix, Region { col: 1, row: 1, width: 2, height: 2 });
    assert_eq!(
        p,
        Picture {
            width: 2,
            height: 2,
            rgb: vec![20, 21, 22, 24, 25, 26, 36, 37, 38, 40, 41, 42]
        }
    );
}

#[test]
fn region_is_clipped_to_the_page() {
    let args = json(r#"{"x0": -5, "y0": 1.5, "x1": 1e30, "y1": 3}"#);
    assert_eq!(
        region(&args, f(2.0), 100, 50).unwrap(),
        Region { col: 0, row: 3, width: 100, height: 3 }
    );
    assert_eq!(
        region(&json("{}"), f(2.0), 100, 50).unwrap(),
        Region { col: 0, row: 0, width: 100, height: 50 }
    );
    let flipped = json(r#"{"x0": 9, "y0": 0, "x1": 3, "y1": 9}"#);
    assert_eq!(region(&flipped, f(1.0), 100, 50).unwrap_err(), "Region has zero area");
}

#[test]
fn pictures_are_written_and_read_back() {
    let p = Picture { width: 2, height: 1, rgb: vec![1, 2, 3, 250, 251, 252] };
    let (bytes, mime) = encode_image(&p, "png", &json("{}")).unwrap();
    assert_eq!(mime, "image/png");
    let img = image::load_from_memory(&bytes).unwrap().into_rgb8();
    assert_eq!((img.width(), img.height()), (2, 1));
    assert_eq!(img.into_raw(), p.rgb);
    let (bytes, mime) = encode_image(&p, "jpg", &json("{}")).unwrap();
    assert_eq!(mime, "image/jpeg");
    let img = image::load_from_memory(&bytes).unwrap();
    assert_eq!((img.width(), img.height()), (2, 1));
    let (_, mime) = encode_image(&p, "webp", &json("{}")).unwrap();
    assert_eq!(mime, "image/png");
}

#[test]
fn file_and_inline_hold_the_same_bytes() {
    for format in ["png", "jpeg"] {
        let doc = open_test_doc();
        let args = format!(r#"{{"page": 0, "dpi": 72, "format": "{format}", "output_path": "o"}}"#);
        run(Tool::Render, &doc, &args).unwrap();
        let args = format!(r#"{{"page": 0, "dpi": 72, "format": "{format}"}}"#);
        let inline = run(Tool::Render, &doc, &args).unwrap();
        let bytes = doc.written.borrow()[0].1.clone();
        assert_eq!(inline, to_value(&image_content(&bytes, &format!("image/{format}"))));
    }
}

#[test]
fn png_of_a_region_is_cut_from_that_of_the_page() {
    let doc = open_test_doc();
    let draw = |args: &str| {
        run(Tool::Render, &doc, args).unwrap();
        let file = doc.written.borrow().last().unwrap().1.clone();
        image::load_from_memory(&file).unwrap().into_rgb8()
    };
    let page = draw(r#"{"page": 0, "dpi": 72, "output_path": "o"}"#);
    let part = draw(
        r#"{"page": 0, "dpi": 72, "x0": 60, "y0": 80, "x1": 100, "y1": 95, "output_path": "o"}"#,
    );
    assert_eq!((part.width(), part.height()), (40, 15));
    for (x, y, pixel) in part.enumerate_pixels() {
        assert_eq!(pixel, page.get_pixel(60 + x, 80 + y));
    }
}

#[test]
fn greater_or_no_resolution_draws_the_same() {
    let mut doc = open_test_doc();
    doc.width = 12.0;
    doc.height = 9.0;
    let draw = |args: &str| run(Tool::Render, &doc, args).unwrap();
    assert_eq!(draw(r#"{"page": 0, "dpi": 1e9}"#), draw(r#"{"page": 0, "dpi": 1200}"#));
    assert_eq!(draw(r#"{"page": 0}"#), draw(r#"{"page": 0, "dpi": 150}"#));
}

#[test]
fn quality_changes_the_jpeg_file() {
    let rgb: Vec<u8> = (0..3 * 64 * 64).map(|i| (i * 37 % 251) as u8).collect();
    let p = Picture { width: 64, height: 64, rgb };
    let size = |args: &str| encode_image(&p, "jpeg", &json(args)).unwrap().0.len();
    assert!(size(r#"{"quality": 10}"#) < size(r#"{"quality": 90}"#));
    assert_eq!(size(r#"{"quality": 80}"#), size("{}"));
    assert_eq!(size(r#"{"quality": 346}"#), size(r#"{"quality": 100}"#));
    assert_eq!(size(r#"{"quality": 18446744073709551615}"#), size(r#"{"quality": 100}"#));
    assert_eq!(size(r#"{"quality": 0}"#), size(r#"{"quality": 1}"#));
}

#[test]
fn pictures_without_pixels_are_refused() {
    let empty = Picture { width: 0, height: 4, rgb: vec![] };
    assert!(encode_image(&empty, "png", &json("{}")).is_err());
    assert!(encode_image(&empty, "jpeg", &json("{}")).is_err());
    let long = Picture { width: 65536, height: 1, rgb: vec![7; 3 * 65536] };
    assert!(encode_image(&long, "png", &json("{}")).is_ok());
    assert!(encode_image(&long, "jpeg", &json("{}")).is_err());
}

#[test]
fn resized_pictures_are_resampled() {
    let mut doc = open_test_doc();
    doc.width = 300.0;
    doc.height = 150.0;
    let args = r#"{"page": 0, "dpi": 72, "width": 30, "output_path": "o"}"#;
    run(Tool::Render, &doc, args).unwrap();
    let written = doc.written.borrow();
    let img = image::load_from_memory(&written[0].1).unwrap().into_rgb8();
    assert_eq!((img.width(), img.height()), (30, 15));
    assert_eq!(img.get_pixel(0, 0).0, [255, 255, 255]);
    assert!(img.get_pixel(14, 10).0.iter().all(|c| *c < 60));
}

#[test]
fn test_get_text_blocks() {
    let doc = open_test_doc();
    let result = run(Tool::GetTextBlocks, &doc, r#"{"page": 0}"#).unwrap();
    let data = parse(&text_of(&result));
    assert!(data["block_count"].as_u64().unwrap() > 0);
    let blocks = data["blocks"].as_array().unwrap();
    assert!(blocks.iter().any(|b| b["type"] == "text"));
    assert_eq!(data["block_count"], 3);
    assert_eq!(blocks[0]["text"], "Hello World\nTest PDF for pdf-mcp");
    assert_eq!(blocks[1]["type"], "image");
    assert_eq!(blocks[2]["type"], "Grid");
    assert_eq!(blocks[1]["bbox"]["x1"], 400.0);
    assert!(blocks[1]["text"].is_null());
}

#[test]
fn test_extract_region_text() {
    let doc = open_test_doc();
    let args = r#"{"page": 0, "x0": 0, "y0": 0, "x1": 612, "y1": 792}"#;
    let text = text_of(&run(Tool::ExtractRegionText, &doc, args).unwrap());
    assert!(text.contains("Hello World"));
    assert_eq!(text, "Hello World\nTest PDF for pdf-mcp");
}

#[test]
fn test_extract_region_text_empty_region() {
    let doc = open_test_doc();
    let args = r#"{"page": 0, "x0": 0, "y0": 0, "x1": 10, "y1": 10}"#;
    let text = text_of(&run(Tool::ExtractRegionText, &doc, args).unwrap());
    assert!(text.is_empty());
}

#[test]
fn region_takes_the_characters_on_its_edges() {
    let doc = open_test_doc();
    let args = r#"{"page": 0, "x0": 79, "y0": 100, "x1": 93, "y1": 119}"#;
    assert_eq!(text_of(&run(Tool::ExtractRegionText, &doc, args).unwrap()), "ell");
    assert_eq!(
        run(Tool::ExtractRegionText, &doc, r#"{"page": 0, "x0": 1}"#).unwrap_err(),
        "Missing required parameter: y0"
    );
}

#[test]
fn larger_region_has_more_text() {
    let doc = open_test_doc();
    let text = |args: &str| text_of(&run(Tool::ExtractRegionText, &doc, args).unwrap());
    let small = text(r#"{"page": 0, "x0": 79, "y0": 100, "x1": 120, "y1": 120}"#);
    let large = text(r#"{"page": 0, "x0": 72, "y0": 90, "x1": 150, "y1": 130}"#);
    let mut rest = large.chars();
    for c in small.chars().filter(|c| !c.is_whitespace()) {
        assert!(rest.any(|d| d == c));
    }
    assert!(small.len() < large.len());
}

#[test]
fn test_get_outline() {
    let doc = open_test_doc();
    let result = run(Tool::GetOutline, &doc, "{}").unwrap();
    let data = parse(&text_of(&result));
    assert!(data.is_array());
}

#[test]
fn outline_is_a_tree_down_to_the_limit() {
    let leaf = |title: &str| OutlineItem {
        title: title.to_string(),
        uri: None,
        page: None,
        down: vec![],
    };
    let mut item = leaf("end");
    for i in 0..105 {
        item = OutlineItem { down: vec![item], page: Some(i), ..leaf("part") };
    }
    item.uri = Some("#page=1".to_string());
    let v = to_value(&pdf_mcp::outline::tool_get_outline(&vec![item, leaf("last")]));
    assert_eq!(v[0]["uri"], "#page=1");
    assert_eq!(v[0]["page"], 104);
    assert_eq!(v[1], parse(r#"{"title": "last", "uri": null}"#));
    let mut depth = 0;
    let mut at = &v[0];
    while at["children"].is_array() {
        at = &at["children"][0];
        depth += 1;
    }
    assert_eq!(depth, 100);
}

#[test]
fn test_get_page_links() {
    let doc = open_test_doc();
    let result = run(Tool::GetPageLinks, &doc, r#"{"page": 0}"#).unwrap();
    let data = parse(&text_of(&result));
    assert_eq!(data["page"], 0);
    assert!(data["links"].is_array());
}

#[test]
fn links_are_listed() {
    let bounds = Rect { x0: f(1.0), y0: f(2.0), x1: f(3.5), y1: f(4.0) };
    let links = vec![Link { uri: "https://example.org".to_string(), bounds }];
    let v = to_value(&pdf_mcp::links::tool_get_page_links(7, &links));
    assert_eq!(
        v,
        parse(r#"{"page": 7, "link_count": 1, "links": [{"uri": "https://example.org",
                  "bbox": {"x0": 1.0, "y0": 2.0, "x1": 3.5, "y1": 4.0}}]}"#)
    );
}

#[test]
fn test_intensity_profile_vertical() {
    let doc = open_test_doc();
    let args = r#"{"page": 0, "axis": "vertical"}"#;
    let data = parse(&text_of(&run(Tool::IntensityProfile, &doc, args).unwrap()));
    assert_eq!(data["axis"], "vertical");
    assert_eq!(data["length"], 792);
    let profile = data["profile"].as_array().unwrap();
    assert_eq!(profile.len(), 792);
    assert!(data["content_start"].is_number());
    assert!(data["content_end"].is_number());
    assert_eq!(data["content_start"], 90);
    assert_eq!(data["content_end"], 121);
    assert_eq!(*doc.scales.borrow(), vec![1.0]);
}

#[test]
fn test_intensity_profile_horizontal() {
    let doc = open_test_doc();
    let args = r#"{"page": 0, "axis": "horizontal"}"#;
    let data = parse(&text_of(&run(Tool::IntensityProfile, &doc, args).unwrap()));
    assert_eq!(data["axis"], "horizontal");
    assert_eq!(data["length"], 612);
}

#[test]
fn test_intensity_profile_invalid_axis() {
    let doc = open_test_doc();
    let args = r#"{"page": 0, "axis": "diagonal"}"#;
    assert!(run(Tool::IntensityProfile, &doc, args).is_err());
    assert_eq!(
        run(Tool::IntensityProfile, &doc, args).unwrap_err(),
        "axis must be \"vertical\" or \"horizontal\", got \"diagonal\""
    );
    assert_eq!(
        run(Tool::IntensityProfile, &doc, r#"{"page": 0}"#).unwrap_err(),
        "Missing required parameter: axis"
    );
}

#[test]
fn test_intensity_profile_with_offset() {
    let doc = open_test_doc();
    let args = r#"{"page": 0, "axis": "vertical", "offset": 300.0, "band_width": 20.0}"#;
    let data = parse(&text_of(&run(Tool::IntensityProfile, &doc, args).unwrap()));
    assert_eq!(data["length"], 792);
    assert!(data["content_start"].is_null());
    assert!(data["content_end"].is_null());
    assert_eq!(data["threshold"], 250);
}

#[test]
fn profile_is_the_mean_luminance() {
    let samples = vec![255, 0, 0, 0, 255, 0, 9, 9, 0, 0, 255, 255, 255, 255, 9, 9];
    let pix = Pixmap { width: 2, height: 2, channels: 3, stride: 8, samples };
    // Red is 76, green 149, blue 29 and white 255.
    assert_eq!(profile(&pix, true, 0, 2), vec![112, 142]);
    assert_eq!(profile(&pix, false, 0, 2), vec![52, 202]);
    assert_eq!(profile(&pix, false, 1, 2), vec![29, 255]);
    assert_eq!(profile(&pix, true, 1, 1), vec![0, 0]);
}

#[test]
fn content_bounds_are_tight() {
    assert_eq!(content_bounds(&vec![255, 9, 255, 8, 255], 250), (Some(1), Some(4)));
    assert_eq!(content_bounds(&vec![250, 255], 250), (None, None));
    assert_eq!(content_bounds(&vec![], 250), (None, None));
    assert_eq!(content_bounds(&vec![0], 250), (Some(0), Some(1)));
}

#[test]
fn threshold_above_every_luminance_takes_in_all() {
    let doc = open_test_doc();
    for threshold in ["256", "300", "18446744073709551615"] {
        let args = format!(r#"{{"page": 0, "axis": "vertical", "threshold": {threshold}}}"#);
        let data = parse(&text_of(&run(Tool::IntensityProfile, &doc, &args).unwrap()));
        assert_eq!(data["threshold"], parse(threshold));
        assert_eq!(data["content_start"], 0);
        assert_eq!(data["content_end"], 792);
    }
}

#[test]
fn greater_threshold_widens_the_bounds() {
    let p = vec![255, 200, 100, 50, 150, 255];
    assert_eq!(content_bounds(&p, 0), (None, None));
    assert_eq!(content_bounds(&p, 51), (Some(3), Some(4)));
    assert_eq!(content_bounds(&p, 151), (Some(2), Some(5)));
    assert_eq!(content_bounds(&p, 255), (Some(1), Some(5)));
    assert_eq!(content_bounds(&p, 300), (Some(0), Some(6)));
}
