//! Values say what they are made of.
use crate::args::{float_arg_spec, page_num_spec, rect_arg_spec, specific_page_spec};
use crate::content::{
    base64_spec, greatest, image_content_spec, image_piece, inline_bytes, law_image_is_read_back,
    least, quad_bbox_spec, rect_json_spec, sextet, text_content_spec, text_piece, tool_error_spec,
};
use crate::document::Quad;
use crate::float::{Double, Single, SCALE_STEP, SINGLE_SCALE};
use crate::json::{find, int_tree, single_tree, Number, Tree};
use crate::laws::numbers::{
    law_lesser_and_greater, law_small_integers_are_exact_in_single_precision,
    law_widening_keeps_the_value, lemma_no_greater_chain, no_greater,
};
use crate::text::{decimal_spec, integer_text_spec, law_trim, trim_spec, white};
use vstd::arithmetic::power2::*;
use vstd::prelude::*;

verus! {

/// Whether a member is the integer `n`.
pub open spec fn is_number(t: Option<Tree>, n: int) -> bool {
    match t {
        Some(Tree::Number(Number::PosInt(k))) => k == n,
        Some(Tree::Number(Number::NegInt(k))) => k == n && n < 0,
        _ => false,
    }
}

/// Whether a member is the text `s`.
pub open spec fn is_text(t: Option<Tree>, s: Seq<char>) -> bool {
    t == Some(Tree::Text(s))
}

/// Whether a value is an object of `n` members.
pub open spec fn has_members(t: Tree, n: int) -> bool {
    t matches Tree::Object(members) && members.len() == n
}

/// Whether a member is some text.
pub open spec fn some_text(t: Option<Tree>) -> bool {
    t matches Some(Tree::Text(_))
}

/// Whether a member is some number.
pub open spec fn some_number(t: Option<Tree>) -> bool {
    t matches Some(Tree::Number(_))
}

/// Whether a member is some integer.
pub open spec fn some_integer(t: Option<Tree>) -> bool {
    t matches Some(Tree::Number(n)) && (n is PosInt || n is NegInt)
}

/// Whether a member is the number `s`: of the same sign and value, or null where it is
/// not finite.
pub open spec fn is_coordinate(t: Option<Tree>, s: Single) -> bool {
    if s.finite() {
        t matches Some(Tree::Number(Number::Float(d))) && d.finite() && d.negative()
            == s.negative() && d.units() == s.units() * pow2(SCALE_STEP as nat)
    } else {
        t == Some(Tree::Null)
    }
}

/// Whether a member is a box with these edges.
pub open spec fn is_box(t: Option<Tree>, x0: Single, y0: Single, x1: Single, y1: Single) -> bool {
    t matches Some(b) && {
        &&& has_members(b, 4)
        &&& is_coordinate(b.get("x0"@), x0)
        &&& is_coordinate(b.get("y0"@), y0)
        &&& is_coordinate(b.get("x1"@), x1)
        &&& is_coordinate(b.get("y1"@), y1)
    }
}

/// Whether a piece of an answer is the text `s`.
pub open spec fn is_text_piece(t: Tree, s: Seq<char>) -> bool {
    has_members(t, 2) && is_text(t.get("type"@), "text"@) && is_text(t.get("text"@), s)
}

/// Whether an answer is the text `s`, and no error.
pub open spec fn says_text(t: Tree, s: Seq<char>) -> bool {
    &&& has_members(t, 1)
    &&& t.get("isError"@) is None
    &&& t.get("content"@) matches Some(Tree::Array(p)) && p.len() == 1 && is_text_piece(p[0], s)
}

/// Whether an answer is an error with the message `s`.
pub open spec fn says_error(t: Tree, s: Seq<char>) -> bool {
    &&& has_members(t, 2)
    &&& t.get("isError"@) == Some(Tree::Bool(true))
    &&& t.get("content"@) matches Some(Tree::Array(p)) && p.len() == 1 && is_text_piece(p[0], s)
}

/// Whether an answer is the image file `bytes` of the kind `mime`, and no error.
pub open spec fn says_image(t: Tree, bytes: Seq<u8>, mime: Seq<char>) -> bool {
    &&& has_members(t, 1)
    &&& t.get("isError"@) is None
    &&& inline_bytes(t) == bytes
    &&& t.get("content"@) matches Some(Tree::Array(p)) && p.len() == 1 && has_members(
        p[0],
        3,
    ) && is_text(
        p[0].get("type"@),
        "image"@,
    ) && is_text(p[0].get("mimeType"@), mime) && is_text(p[0].get("data"@), base64_spec(bytes))
}

/// The member of a key is the first one with that key; there is none where no member has
/// the key.
pub proof fn law_members_are_found_by_key(members: Seq<(Seq<char>, Tree)>, key: Seq<char>, i: int)
    ensures
        0 <= i < members.len() && members[i].0 == key && (forall|j: int|
            0 <= j < i ==> (#[trigger] members[j]).0 != key) ==> Tree::Object(members).get(key)
            == Some(members[i].1),
        (forall|j: int| 0 <= j < members.len() ==> (#[trigger] members[j]).0 != key)
            ==> Tree::Object(members).get(key) is None,
    decreases members.len(),
{
    if members.len() > 0 {
        let rest = members.drop_first();
        law_members_are_found_by_key(rest, key, i - 1);
        assert(forall|j: int| 0 <= j < rest.len() ==> rest[j] == members[j + 1]);
        if forall|j: int| 0 <= j < members.len() ==> (#[trigger] members[j]).0 != key {
            assert forall|j: int| 0 <= j < rest.len() implies (#[trigger] rest[j]).0 != key by {
                assert(members[j + 1].0 != key);
            }
            assert(members[0].0 != key);
        }
        if 0 < i < members.len() && members[i].0 == key && (forall|j: int|
            0 <= j < i ==> (#[trigger] members[j]).0 != key) {
            assert forall|j: int| 0 <= j < i - 1 implies (#[trigger] rest[j]).0 != key by {
                assert(members[j + 1].0 != key);
            }
            assert(members[0].0 != key);
            assert(rest[i - 1].0 == key);
        }
    }
}

/// Only an object has members.
pub proof fn law_only_objects_have_members(t: Tree, key: Seq<char>)
    requires
        !(t is Object),
    ensures
        t.get(key) is None,
{
}

/// A member is read as what it is, and as nothing else.
pub proof fn law_members_are_read_as_they_are(t: Tree, key: Seq<char>)
    ensures
        match t.get(key) {
            Some(Tree::Text(s)) => t.text_at(key) == Some(s) && t.integer_at(key) is None
                && t.u64_at(key) is None && t.double_at(key) is None,
            Some(Tree::Number(Number::PosInt(n))) => t.integer_at(key) == Some(n as int)
                && t.u64_at(key) == Some(n) && t.double_at(key) == Some(Double::from_int(n as int))
                && t.text_at(key) is None,
            Some(Tree::Number(Number::NegInt(n))) => t.integer_at(key) == Some(n as int)
                && t.u64_at(key) is None && t.double_at(key) == Some(Double::from_int(n as int))
                && t.text_at(key) is None,
            Some(Tree::Number(Number::Float(d))) => t.double_at(key) == Some(d) && t.integer_at(
                key,
            ) is None && t.u64_at(key) is None && t.text_at(key) is None,
            _ => t.text_at(key) is None && t.integer_at(key) is None && t.u64_at(key) is None
                && t.double_at(key) is None,
        },
{
}

/// An integer is shown as itself.
pub proof fn law_integers_are_shown(n: int)
    requires
        i64::MIN <= n <= u64::MAX,
    ensures
        is_number(Some(int_tree(n)), n),
{
}

/// A coordinate is shown as itself.
pub proof fn law_coordinates_are_shown(s: Single)
    ensures
        is_coordinate(Some(single_tree(s)), s),
{
    if s.finite() {
        law_widening_keeps_the_value(s);
    }
}

/// A box is shown with each edge under its own name.
pub proof fn law_boxes_are_shown(x0: Single, y0: Single, x1: Single, y1: Single)
    ensures
        is_box(Some(rect_json_spec(x0, y0, x1, y1)), x0, y0, x1, y1),
{
    law_coordinates_are_shown(x0);
    law_coordinates_are_shown(y0);
    law_coordinates_are_shown(x1);
    law_coordinates_are_shown(y1);
    reveal_strlit("x0");
    reveal_strlit("y0");
    reveal_strlit("x1");
    reveal_strlit("y1");
    assert("x0"@[0] == 'x' && "x0"@[1] == '0');
    assert("y0"@[0] == 'y' && "y0"@[1] == '0');
    assert("x1"@[0] == 'x' && "x1"@[1] == '1');
    assert("y1"@[0] == 'y' && "y1"@[1] == '1');
    reveal_with_fuel(find, 5);
}

/// The bounding box of a quad has the least and the greatest of its four x at the left
/// and right, and the least and the greatest of its four y at the top and bottom.
pub proof fn law_bounding_box_is_tight(q: Quad)
    requires
        !q.ul.x.nan() && !q.ur.x.nan() && !q.ll.x.nan() && !q.lr.x.nan(),
        !q.ul.y.nan() && !q.ur.y.nan() && !q.ll.y.nan() && !q.lr.y.nan(),
    ensures
        ({
            let (x0, y0, x1, y1) = quad_bbox_spec(q);
            &&& is_least(x0, q.ul.x, q.ur.x, q.ll.x, q.lr.x)
            &&& is_least(y0, q.ul.y, q.ur.y, q.ll.y, q.lr.y)
            &&& is_greatest(x1, q.ul.x, q.ur.x, q.ll.x, q.lr.x)
            &&& is_greatest(y1, q.ul.y, q.ur.y, q.ll.y, q.lr.y)
        }),
{
    lemma_least_and_greatest(q.ul.x, q.ur.x, q.ll.x, q.lr.x);
    lemma_least_and_greatest(q.ul.y, q.ur.y, q.ll.y, q.lr.y);
}

/// Whether `s` is the least of four numbers.
pub open spec fn is_least(s: Single, a: Single, b: Single, c: Single, d: Single) -> bool {
    &&& s == a || s == b || s == c || s == d
    &&& no_greater(s, a) && no_greater(s, b) && no_greater(s, c) && no_greater(s, d)
}

/// Whether `s` is the greatest of four numbers.
pub open spec fn is_greatest(s: Single, a: Single, b: Single, c: Single, d: Single) -> bool {
    &&& s == a || s == b || s == c || s == d
    &&& no_greater(a, s) && no_greater(b, s) && no_greater(c, s) && no_greater(d, s)
}

proof fn lemma_least_and_greatest(a: Single, b: Single, c: Single, d: Single)
    requires
        !a.nan() && !b.nan() && !c.nan() && !d.nan(),
    ensures
        is_least(least(a, b, c, d), a, b, c, d),
        is_greatest(greatest(a, b, c, d), a, b, c, d),
{
    law_lesser_and_greater(a, b);
    law_lesser_and_greater(c, d);
    law_lesser_and_greater(a.min_spec(b), c.min_spec(d));
    law_lesser_and_greater(a.max_spec(b), c.max_spec(d));
    let s = least(a, b, c, d);
    let t = greatest(a, b, c, d);
    lemma_no_greater_chain(s, a.min_spec(b), a);
    lemma_no_greater_chain(s, a.min_spec(b), b);
    lemma_no_greater_chain(s, c.min_spec(d), c);
    lemma_no_greater_chain(s, c.min_spec(d), d);
    lemma_no_greater_chain(a, a.max_spec(b), t);
    lemma_no_greater_chain(b, a.max_spec(b), t);
    lemma_no_greater_chain(c, c.max_spec(d), t);
    lemma_no_greater_chain(d, c.max_spec(d), t);
}

/// An answer of text has the text, once, and is no error; an error has the message, and
/// says that it is one; an image has the file and its kind, and is no error.
pub proof fn law_answers_hold_what_they_are_made_of(s: Seq<char>, data: Seq<u8>, mime: Seq<char>)
    ensures
        says_text(text_content_spec(s), s),
        says_error(tool_error_spec(s), s),
        says_image(image_content_spec(data, mime), data, mime),
{
    law_image_is_read_back(data, mime);
    reveal_strlit("content");
    reveal_strlit("isError");
    reveal_strlit("type");
    reveal_strlit("text");
    reveal_strlit("data");
    reveal_strlit("mimeType");
    assert("content"@[0] == 'c');
    assert("isError"@[0] == 'i');
    assert("type"@[0] == 't' && "type"@[1] == 'y');
    assert("text"@[0] == 't' && "text"@[1] == 'e');
    assert("data"@[0] == 'd');
    assert("type"@.len() == 4 && "data"@.len() == 4 && "mimeType"@.len() == 8);
    reveal_with_fuel(find, 4);
    let a = text_content_spec(s).get("content"@)->0->Array_0;
    assert(a =~= seq![text_piece(s)]);
    let b = tool_error_spec(s).get("content"@)->0->Array_0;
    assert(b =~= seq![text_piece(s)]);
    let c = image_content_spec(data, mime).get("content"@)->0->Array_0;
    assert(c =~= seq![image_piece(data, mime)]);
}

/// The characters of base 64 are the capital letters, the small letters, the digits, the
/// plus sign and the slash, in this order.
pub proof fn law_base64_alphabet(n: int)
    requires
        0 <= n < 64,
    ensures
        "ABCDEFGHIJKLMNOPQRSTUVWXYZabcdefghijklmnopqrstuvwxyz0123456789+/"@.len() == 64,
        sextet(n)
            == "ABCDEFGHIJKLMNOPQRSTUVWXYZabcdefghijklmnopqrstuvwxyz0123456789+/"@[n],
{
    reveal_strlit("ABCDEFGHIJKLMNOPQRSTUVWXYZabcdefghijklmnopqrstuvwxyz0123456789+/");
}

/// The number that a run of digits stands for.
pub open spec fn read_decimal(s: Seq<char>) -> int
    decreases s.len(),
{
    if s.len() == 0 {
        0
    } else {
        read_decimal(s.drop_last()) * 10 + (s.last() as int - '0' as int)
    }
}

/// A whole number in decimal notation is read back as itself, is made of digits, and has
/// no zero at its start but zero itself.
pub proof fn law_decimals_are_read_back(n: nat)
    ensures
        read_decimal(decimal_spec(n)) == n,
        decimal_spec(n).len() > 0,
        forall|i: int|
            0 <= i < decimal_spec(n).len() ==> '0' as int <= #[trigger] decimal_spec(n)[i] as int
                <= '9' as int,
        n > 0 ==> decimal_spec(n)[0] != '0',
    decreases n,
{
    let d = decimal_spec(n);
    if n < 10 {
        assert(d.drop_last() =~= seq![]);
        assert(read_decimal(d.drop_last()) == 0);
        assert(d.last() as int - '0' as int == n);
    } else {
        law_decimals_are_read_back(n / 10);
        assert(d.drop_last() =~= decimal_spec(n / 10));
        assert(d.last() as int - '0' as int == n % 10);
        assert forall|i: int| 0 <= i < d.len() implies '0' as int <= #[trigger] d[i] as int
            <= '9' as int by {
            if i < d.len() - 1 {
                assert(d[i] == decimal_spec(n / 10)[i]);
            }
        }
        assert(d[0] == decimal_spec(n / 10)[0]);
    }
}

/// A negative integer has a minus sign before the digits of its size.
pub proof fn law_negative_integers_have_a_sign(n: int)
    ensures
        n < 0 ==> integer_text_spec(n).len() > 1 && integer_text_spec(n)[0] == '-' && read_decimal(
            integer_text_spec(n).skip(1),
        ) == -n,
        n >= 0 ==> read_decimal(integer_text_spec(n)) == n,
{
    if n < 0 {
        law_decimals_are_read_back((-n) as nat);
        reveal_strlit("-");
        assert("-"@.len() == 1 && "-"@[0] == '-');
        assert(integer_text_spec(n).skip(1) =~= decimal_spec((-n) as nat));
    } else {
        law_decimals_are_read_back(n as nat);
    }
}

/// A text is blank just where every character is white space.
pub proof fn law_blank_is_all_white(s: Seq<char>)
    ensures
        trim_spec(s).len() == 0 <==> (forall|i: int| 0 <= i < s.len() ==> white(#[trigger] s[i])),
{
    law_trim(s);
    let (from, to) = choose|from: int, to: int|
        {
            &&& 0 <= from <= to <= s.len()
            &&& trim_spec(s) == #[trigger] s.subrange(from, to)
            &&& from < to ==> !white(s[from]) && !white(s[to - 1])
            &&& forall|i: int| 0 <= i < s.len() && (i < from || i >= to) ==> white(s[i])
        };
    assert(trim_spec(s).len() == to - from);
    if from < to {
        assert(!white(s[from]));
    }
}

/// The page of the arguments is the integer at `page`, whatever it is; one that no page can
/// have is refused by name.
pub proof fn law_page_is_the_number_given(args: Tree, n: int)
    requires
        is_number(args.get("page"@), n),
    ensures
        i32::MIN <= n <= i32::MAX ==> page_num_spec(args) == Ok::<i32, Seq<char>>(n as i32)
            && specific_page_spec(args) == Ok::<Option<i32>, Seq<char>>(Some(n as i32)),
        n < i32::MIN || n > i32::MAX ==> page_num_spec(args) == Err::<i32, Seq<char>>(
            "No such page: "@ + integer_text_spec(n),
        ) && specific_page_spec(args) == Err::<Option<i32>, Seq<char>>(
            "No such page: "@ + integer_text_spec(n),
        ),
{
}

/// Without an integer at `page` there is no page: that is an error where one is needed,
/// and only there.
pub proof fn law_no_page_without_a_number(args: Tree)
    requires
        !some_integer(args.get("page"@)),
    ensures
        page_num_spec(args) == Err::<i32, Seq<char>>("Missing required parameter: "@ + "page"@),
        specific_page_spec(args) == Ok::<Option<i32>, Seq<char>>(None),
{
}

/// A coordinate that is given as an integer of up to 24 binary digits is that integer.
pub proof fn law_coordinate_is_the_number_given(args: Tree, key: Seq<char>, n: int)
    requires
        is_number(args.get(key), n),
        -0x100_0000 < n < 0x100_0000,
    ensures
        float_arg_spec(args, key) matches Ok(s) && s.finite() && s.value() == n * pow2(
            SINGLE_SCALE as nat,
        ),
{
    law_small_integers_are_exact_in_single_precision(n);
}

/// A coordinate is missing just where there is no number under its name, and the message
/// has the name.
pub proof fn law_coordinate_is_missing_without_a_number(args: Tree, key: Seq<char>)
    ensures
        match args.get(key) {
            Some(Tree::Number(Number::Float(d))) => float_arg_spec(args, key) == Ok::<
                Single,
                Seq<char>,
            >(d.narrow_spec()),
            Some(Tree::Number(_)) => float_arg_spec(args, key) is Ok,
            _ => float_arg_spec(args, key) == Err::<Single, Seq<char>>(
                "Missing required parameter: "@ + key,
            ),
        },
{
}

/// Each edge of a rectangle is the number under its own name; the first that is missing
/// is the one that is reported.
pub proof fn law_rectangle_has_its_edges(args: Tree)
    ensures
        match rect_arg_spec(args) {
            Ok(b) => {
                &&& float_arg_spec(args, "x0"@) == Ok::<Single, Seq<char>>(b.x0)
                &&& float_arg_spec(args, "y0"@) == Ok::<Single, Seq<char>>(b.y0)
                &&& float_arg_spec(args, "x1"@) == Ok::<Single, Seq<char>>(b.x1)
                &&& float_arg_spec(args, "y1"@) == Ok::<Single, Seq<char>>(b.y1)
            },
            Err(e) => {
                ||| float_arg_spec(args, "x0"@) == Err::<Single, Seq<char>>(e)
                ||| float_arg_spec(args, "x0"@) is Ok && float_arg_spec(args, "y0"@) == Err::<
                    Single,
                    Seq<char>,
                >(e)
                ||| float_arg_spec(args, "x0"@) is Ok && float_arg_spec(args, "y0"@) is Ok
                    && float_arg_spec(args, "x1"@) == Err::<Single, Seq<char>>(e)
                ||| float_arg_spec(args, "x0"@) is Ok && float_arg_spec(args, "y0"@) is Ok
                    && float_arg_spec(args, "x1"@) is Ok && float_arg_spec(args, "y1"@) == Err::<
                    Single,
                    Seq<char>,
                >(e)
            },
        },
{
}

} // verus!
