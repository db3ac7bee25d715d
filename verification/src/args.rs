//! Arguments of a tool call.
use crate::document::Rect;
use crate::float::Single;
use crate::json::{Json, Tree};
use crate::text::{integer_text, integer_text_spec, joined};
use vstd::prelude::*;

verus! {

/// The message for a parameter that is missing or has another type.
pub open spec fn missing_spec(key: Seq<char>) -> Seq<char> {
    "Missing required parameter: "@ + key
}

/// The message for a parameter that is missing or has another type.
pub fn missing(key: &str) -> (r: String)
    ensures
        r@ == missing_spec(key@),
{
    joined("Missing required parameter: ", key)
}

/// The page of a number. A number that no page can have is refused by name.
pub open spec fn page_of_spec(n: int) -> Result<i32, Seq<char>> {
    if i32::MIN <= n <= i32::MAX {
        Ok(n as i32)
    } else {
        Err("No such page: "@ + integer_text_spec(n))
    }
}

/// The page of a number.
fn page_of(n: i128) -> (r: Result<i32, String>)
    requires
        -0xffff_ffff_ffff_ffff <= n <= 0xffff_ffff_ffff_ffff,
    ensures
        match r {
            Ok(p) => page_of_spec(n as int) == Ok::<i32, Seq<char>>(p),
            Err(e) => page_of_spec(n as int) == Err::<i32, Seq<char>>(e@),
        },
{
    if i32::MIN as i128 <= n && n <= i32::MAX as i128 {
        Ok(n as i32)
    } else {
        Err(joined("No such page: ", integer_text(n).as_str()))
    }
}

/// The page that the arguments name.
pub open spec fn page_num_spec(args: Tree) -> Result<i32, Seq<char>> {
    match args.integer_at("page"@) {
        Some(n) => page_of_spec(n),
        None => Err(missing_spec("page"@)),
    }
}

/// The page that the arguments name.
pub fn page_num(args: &Json) -> (r: Result<i32, String>)
    ensures
        match r {
            Ok(p) => page_num_spec(args@) == Ok::<i32, Seq<char>>(p),
            Err(e) => page_num_spec(args@) == Err::<i32, Seq<char>>(e@),
        },
{
    match args.integer_at("page") {
        Some(n) => page_of(n),
        None => Err(missing("page")),
    }
}

/// The page that the arguments name, if they name one.
pub open spec fn specific_page_spec(args: Tree) -> Result<Option<i32>, Seq<char>> {
    match args.integer_at("page"@) {
        Some(n) => match page_of_spec(n) {
            Ok(p) => Ok(Some(p)),
            Err(e) => Err(e),
        },
        None => Ok(None),
    }
}

/// The page that the arguments name, if they name one.
pub fn specific_page(args: &Json) -> (r: Result<Option<i32>, String>)
    ensures
        match r {
            Ok(p) => specific_page_spec(args@) == Ok::<Option<i32>, Seq<char>>(p),
            Err(e) => specific_page_spec(args@) == Err::<Option<i32>, Seq<char>>(e@),
        },
{
    match args.integer_at("page") {
        Some(n) => match page_of(n) {
            Ok(p) => Ok(Some(p)),
            Err(e) => Err(e),
        },
        None => Ok(None),
    }
}

/// The number at `key`, in single precision.
pub open spec fn float_arg_spec(args: Tree, key: Seq<char>) -> Result<Single, Seq<char>> {
    match args.double_at(key) {
        Some(d) => Ok(d.narrow_spec()),
        None => Err(missing_spec(key)),
    }
}

/// The number at `key`, in single precision.
pub fn float_arg(args: &Json, key: &str) -> (r: Result<Single, String>)
    ensures
        match r {
            Ok(s) => float_arg_spec(args@, key@) == Ok::<Single, Seq<char>>(s),
            Err(e) => float_arg_spec(args@, key@) == Err::<Single, Seq<char>>(e@),
        },
{
    match args.double_at(key) {
        Some(d) => Ok(d.narrow()),
        None => Err(missing(key)),
    }
}

/// The rectangle at `x0`, `y0`, `x1` and `y1`; the first that is missing decides
/// the message.
pub open spec fn rect_arg_spec(args: Tree) -> Result<Rect, Seq<char>> {
    match (
        float_arg_spec(args, "x0"@),
        float_arg_spec(args, "y0"@),
        float_arg_spec(args, "x1"@),
        float_arg_spec(args, "y1"@),
    ) {
        (Ok(x0), Ok(y0), Ok(x1), Ok(y1)) => Ok(Rect { x0, y0, x1, y1 }),
        (Err(e), _, _, _) => Err(e),
        (_, Err(e), _, _) => Err(e),
        (_, _, Err(e), _) => Err(e),
        (_, _, _, Err(e)) => Err(e),
    }
}

/// The rectangle at `x0`, `y0`, `x1` and `y1`.
pub fn rect_arg(args: &Json) -> (r: Result<Rect, String>)
    ensures
        match r {
            Ok(b) => rect_arg_spec(args@) == Ok::<Rect, Seq<char>>(b),
            Err(e) => rect_arg_spec(args@) == Err::<Rect, Seq<char>>(e@),
        },
{
    let x0: Single = match float_arg(args, "x0") {
        Ok(s) => s,
        Err(e) => return Err(e),
    };
    let y0: Single = match float_arg(args, "y0") {
        Ok(s) => s,
        Err(e) => return Err(e),
    };
    let x1: Single = match float_arg(args, "x1") {
        Ok(s) => s,
        Err(e) => return Err(e),
    };
    let y1: Single = match float_arg(args, "y1") {
        Ok(s) => s,
        Err(e) => return Err(e),
    };
    Ok(Rect { x0, y0, x1, y1 })
}

} // verus!
