//! What a tool answers: text, images, errors, and the values in them.
use crate::document::{Point, Quad, Rect};
use crate::float::Single;
use crate::json::{find, single_tree, Json, Tree};
use vstd::prelude::*;

verus! {

/// An answer that consists of one piece of content.
pub open spec fn content_tree(piece: Tree) -> Tree {
    Tree::Object(seq![("content"@, Tree::Array(seq![piece]))])
}

/// A piece of text.
pub open spec fn text_piece(s: Seq<char>) -> Tree {
    Tree::Object(seq![("type"@, Tree::Text("text"@)), ("text"@, Tree::Text(s))])
}

/// An answer that consists of one text.
pub open spec fn text_content_spec(s: Seq<char>) -> Tree {
    content_tree(text_piece(s))
}

/// An answer that reports an error.
pub open spec fn tool_error_spec(msg: Seq<char>) -> Tree {
    Tree::Object(
        seq![("content"@, Tree::Array(seq![text_piece(msg)])), ("isError"@, Tree::Bool(true))],
    )
}

/// An image: its file in base 64, and the kind of file.
pub open spec fn image_piece(data: Seq<u8>, mime: Seq<char>) -> Tree {
    Tree::Object(
        seq![
            ("type"@, Tree::Text("image"@)),
            ("data"@, Tree::Text(base64_spec(data))),
            ("mimeType"@, Tree::Text(mime)),
        ],
    )
}

/// An answer that consists of one image.
pub open spec fn image_content_spec(data: Seq<u8>, mime: Seq<char>) -> Tree {
    content_tree(image_piece(data, mime))
}

/// A rectangle as a JSON value.
pub open spec fn rect_json_spec(x0: Single, y0: Single, x1: Single, y1: Single) -> Tree {
    Tree::Object(
        seq![
            ("x0"@, single_tree(x0)),
            ("y0"@, single_tree(y0)),
            ("x1"@, single_tree(x1)),
            ("y1"@, single_tree(y1)),
        ],
    )
}

/// A rectangle as a JSON value.
pub open spec fn bounds_tree(b: Rect) -> Tree {
    rect_json_spec(b.x0, b.y0, b.x1, b.y1)
}

/// The character for six bits.
pub open spec fn sextet(n: int) -> char {
    if n < 26 {
        (0x41 + n) as char
    } else if n < 52 {
        (0x61 + (n - 26)) as char
    } else if n < 62 {
        (0x30 + (n - 52)) as char
    } else if n == 62 {
        '+'
    } else {
        '/'
    }
}

/// Bytes in the standard base 64 alphabet: four characters for three bytes, the
/// last group padded with `=`.
pub open spec fn base64_spec(data: Seq<u8>) -> Seq<char>
    decreases data.len(),
{
    if data.len() == 0 {
        seq![]
    } else if data.len() == 1 {
        let a = data[0] as int;
        seq![sextet(a / 4), sextet(a % 4 * 16), '=', '=']
    } else if data.len() == 2 {
        let a = data[0] as int;
        let b = data[1] as int;
        seq![sextet(a / 4), sextet(a % 4 * 16 + b / 16), sextet(b % 16 * 4), '=']
    } else {
        let a = data[0] as int;
        let b = data[1] as int;
        let c = data[2] as int;
        seq![
            sextet(a / 4),
            sextet(a % 4 * 16 + b / 16),
            sextet(b % 16 * 4 + c / 64),
            sextet(c % 64),
        ] + base64_spec(data.skip(3))
    }
}

/// `base64::Engine::encode` of the engine `general_purpose::STANDARD` gives the
/// bytes in the standard alphabet, with padding.
#[verifier::external_body]
fn encode_base64(data: &[u8]) -> (r: String)
    ensures
        r@ == base64_spec(data@),
{
    base64::Engine::encode(&base64::engine::general_purpose::STANDARD, data)
}

/// A piece of text.
fn piece_of_text(s: &str) -> (r: Json)
    ensures
        r@ == text_piece(s@),
{
    let r: Json = Json::object().with("type", Json::text("text")).with("text", Json::text(s));
    assert(r@->Object_0 =~= text_piece(s@)->Object_0);
    r
}

/// An answer that reports an error.
pub fn tool_error(msg: &str) -> (r: Json)
    ensures
        r@ == tool_error_spec(msg@),
{
    let r: Json = Json::object().with("content", Json::single_item(piece_of_text(msg))).with(
        "isError",
        Json::Bool(true),
    );
    assert(r@->Object_0 =~= tool_error_spec(msg@)->Object_0);
    r
}

/// An answer that consists of one text.
pub fn text_content(s: &str) -> (r: Json)
    ensures
        r@ == text_content_spec(s@),
{
    Json::object().with("content", Json::single_item(piece_of_text(s)))
}

/// An answer that consists of one image.
pub fn image_content(data: &[u8], mime: &str) -> (r: Json)
    ensures
        r@ == image_content_spec(data@, mime@),
{
    let piece: Json = Json::object().with("type", Json::text("image")).with(
        "data",
        Json::Text(encode_base64(data)),
    ).with("mimeType", Json::text(mime));
    assert(piece@->Object_0 =~= image_piece(data@, mime@)->Object_0);
    Json::object().with("content", Json::single_item(piece))
}

/// A rectangle as a JSON value.
pub fn rect_json(x0: Single, y0: Single, x1: Single, y1: Single) -> (r: Json)
    ensures
        r@ == rect_json_spec(x0, y0, x1, y1),
{
    let r: Json = Json::object().with("x0", Json::single(x0)).with("y0", Json::single(y0)).with(
        "x1",
        Json::single(x1),
    ).with("y1", Json::single(y1));
    assert(r@->Object_0 =~= rect_json_spec(x0, y0, x1, y1)->Object_0);
    r
}

/// The least of four numbers.
pub open spec fn least(a: Single, b: Single, c: Single, d: Single) -> Single {
    a.min_spec(b).min_spec(c.min_spec(d))
}

/// The greatest of four numbers.
pub open spec fn greatest(a: Single, b: Single, c: Single, d: Single) -> Single {
    a.max_spec(b).max_spec(c.max_spec(d))
}

/// The bounding box of a quad: the left, top, right and bottom of its four corners.
pub open spec fn quad_bbox_spec(q: Quad) -> (Single, Single, Single, Single) {
    (
        least(q.ul.x, q.ur.x, q.ll.x, q.lr.x),
        least(q.ul.y, q.ur.y, q.ll.y, q.lr.y),
        greatest(q.ul.x, q.ur.x, q.ll.x, q.lr.x),
        greatest(q.ul.y, q.ur.y, q.ll.y, q.lr.y),
    )
}

/// The bounding box of a quad: the left, top, right and bottom of its four corners.
pub fn quad_bbox(q: &Quad) -> (r: (Single, Single, Single, Single))
    ensures
        r == quad_bbox_spec(*q),
{
    (
        q.ul.x.min(q.ur.x).min(q.ll.x.min(q.lr.x)),
        q.ul.y.min(q.ur.y).min(q.ll.y.min(q.lr.y)),
        q.ul.x.max(q.ur.x).max(q.ll.x.max(q.lr.x)),
        q.ul.y.max(q.ur.y).max(q.ll.y.max(q.lr.y)),
    )
}

/// An error says that it is one, and holds the message; nothing else does.
pub proof fn law_only_errors_are_marked(msg: Seq<char>, data: Seq<u8>)
    ensures
        tool_error_spec(msg).get("isError"@) == Some(Tree::Bool(true)),
        tool_error_spec(msg).get("content"@) == Some(Tree::Array(seq![text_piece(msg)])),
        text_content_spec(msg).get("isError"@) is None,
        image_content_spec(data, msg).get("isError"@) is None,
{
    reveal_strlit("content");
    reveal_strlit("isError");
    assert("content"@[0] == 'c');
    assert("isError"@[0] == 'i');
    reveal_with_fuel(find, 3);
}

/// Bytes in base 64 take four characters for each three bytes or part of three.
pub proof fn law_base64_length(data: Seq<u8>)
    ensures
        base64_spec(data).len() == 4 * ((data.len() + 2) / 3),
    decreases data.len(),
{
    if data.len() >= 3 {
        law_base64_length(data.skip(3));
    }
}

/// The six bits that a character stands for.
pub open spec fn sextet_value(c: char) -> int {
    let u = c as int;
    if 0x41 <= u <= 0x5a {
        u - 0x41
    } else if 0x61 <= u <= 0x7a {
        u - 0x61 + 26
    } else if 0x30 <= u <= 0x39 {
        u - 0x30 + 52
    } else if c == '+' {
        62
    } else {
        63
    }
}

/// The bytes that a text in base 64 stands for.
pub open spec fn base64_bytes(s: Seq<char>) -> Seq<u8>
    decreases s.len(),
{
    if s.len() < 4 {
        seq![]
    } else {
        let a = sextet_value(s[0]);
        let b = sextet_value(s[1]);
        let c = sextet_value(s[2]);
        let d = sextet_value(s[3]);
        let first = (a * 4 + b / 16) as u8;
        let second = (b % 16 * 16 + c / 4) as u8;
        let third = (c % 4 * 64 + d) as u8;
        if s[2] == '=' {
            seq![first]
        } else if s[3] == '=' {
            seq![first, second]
        } else {
            seq![first, second, third] + base64_bytes(s.skip(4))
        }
    }
}

/// Six bits are read back from their character, which is not the padding.
proof fn lemma_sextet(n: int)
    requires
        0 <= n < 64,
    ensures
        sextet_value(sextet(n)) == n,
        sextet(n) != '=',
{
}

/// The bytes of an image are read back from its text.
pub proof fn law_base64_is_read_back(data: Seq<u8>)
    ensures
        base64_bytes(base64_spec(data)) == data,
    decreases data.len(),
{
    let s = base64_spec(data);
    if data.len() > 0 {
        let a = data[0] as int;
        let b = if data.len() > 1 {
            data[1] as int
        } else {
            0
        };
        let c = if data.len() > 2 {
            data[2] as int
        } else {
            0
        };
        lemma_sextet(a / 4);
        lemma_sextet(a % 4 * 16 + b / 16);
        lemma_sextet(b % 16 * 4 + c / 64);
        lemma_sextet(c % 64);
        assert(a == (a / 4) * 4 + a % 4);
        assert(b == (b / 16) * 16 + b % 16);
        assert(c == (c / 64) * 64 + c % 64);
        if data.len() >= 3 {
            law_base64_is_read_back(data.skip(3));
            assert(s.skip(4) =~= base64_spec(data.skip(3)));
        }
        assert(base64_bytes(s) =~= data);
    }
}

/// Whether a point lies in a box, its edges included.
pub open spec fn boxed(p: Point, b: (Single, Single, Single, Single)) -> bool {
    b.0.le_spec(p.x) && p.x.le_spec(b.2) && b.1.le_spec(p.y) && p.y.le_spec(b.3)
}

/// Every corner of a quad lies in its bounding box, whichever way the quad is turned.
pub proof fn law_bounding_box_encloses(q: Quad)
    requires
        !q.ul.x.nan() && !q.ul.y.nan(),
        !q.ur.x.nan() && !q.ur.y.nan(),
        !q.ll.x.nan() && !q.ll.y.nan(),
        !q.lr.x.nan() && !q.lr.y.nan(),
    ensures
        boxed(q.ul, quad_bbox_spec(q)),
        boxed(q.ur, quad_bbox_spec(q)),
        boxed(q.ll, quad_bbox_spec(q)),
        boxed(q.lr, quad_bbox_spec(q)),
{
}

/// The bytes of the image in an answer.
pub open spec fn inline_bytes(answer: Tree) -> Seq<u8> {
    match answer.get("content"@) {
        Some(Tree::Array(pieces)) => match pieces[0].text_at("data"@) {
            Some(text) => base64_bytes(text),
            None => seq![],
        },
        _ => seq![],
    }
}

/// The bytes of an image are read back from the answer that holds it.
pub proof fn law_image_is_read_back(data: Seq<u8>, mime: Seq<char>)
    ensures
        inline_bytes(image_content_spec(data, mime)) == data,
{
    law_base64_is_read_back(data);
    reveal_strlit("type");
    reveal_strlit("data");
    assert("type"@[0] == 't');
    assert("data"@[0] == 'd');
    reveal_with_fuel(find, 3);
    assert(image_content_spec(data, mime).get("content"@) == Some(
        Tree::Array(seq![image_piece(data, mime)]),
    ));
}

} // verus!
