//! Text: comparison, joining, decimal numbers and white space.
use vstd::prelude::*;
use vstd::string::*;

verus! {

/// `String::push` appends the given character and keeps what was there.
pub assume_specification[ String::push ](s: &mut String, c: char)
    ensures
        final(s)@ == old(s)@.push(c),
;

/// Whether two texts hold the same characters.
pub fn same(a: &str, b: &str) -> (r: bool)
    ensures
        r == (a@ == b@),
{
    a.to_owned() == b.to_owned()
}

/// The characters of a text.
pub fn characters(s: &str) -> (r: Vec<char>)
    ensures
        r@ == s@,
{
    let mut out: Vec<char> = Vec::new();
    for c in it: s.chars()
        invariant
            it.seq() == s@,
            out@ == s@.take(it.index()),
    {
        out.push(c);
        assert(s@.take(it.index() + 1) =~= s@.take(it.index()).push(c));
    }
    assert(s@.take(s@.len() as int) =~= s@);
    out
}

/// The text `head` followed by the text `tail`.
pub fn joined(head: &str, tail: &str) -> (r: String)
    ensures
        r@ == head@ + tail@,
{
    head.to_owned().concat(tail)
}

/// The digit for a number below ten.
pub open spec fn digit(n: nat) -> char {
    (0x30 + n) as char
}

/// A whole number in decimal notation.
pub open spec fn decimal_spec(n: nat) -> Seq<char>
    decreases n,
{
    if n < 10 {
        seq![digit(n)]
    } else {
        decimal_spec(n / 10).push(digit(n % 10))
    }
}

/// The digit for a number below ten.
fn digit_of(n: u64) -> (c: char)
    requires
        n < 10,
    ensures
        c == digit(n as nat),
{
    (0x30u8 + n as u8) as char
}

/// A whole number in decimal notation.
pub fn decimal(n: u64) -> (r: String)
    ensures
        r@ == decimal_spec(n as nat),
    decreases n,
{
    let mut s: String = if n < 10 {
        String::new()
    } else {
        decimal(n / 10)
    };
    s.push(digit_of(n % 10));
    assert(n < 10 ==> s@ =~= seq![digit(n as nat)]);
    s
}

/// An integer in decimal notation.
pub open spec fn integer_text_spec(n: int) -> Seq<char> {
    if n < 0 {
        "-"@ + decimal_spec((-n) as nat)
    } else {
        decimal_spec(n as nat)
    }
}

/// An integer in decimal notation.
pub fn integer_text(n: i128) -> (r: String)
    requires
        -0xffff_ffff_ffff_ffff <= n <= 0xffff_ffff_ffff_ffff,
    ensures
        r@ == integer_text_spec(n as int),
{
    if n < 0 {
        joined("-", decimal((-n) as u64).as_str())
    } else {
        decimal(n as u64)
    }
}

/// Whether a character has the Unicode property `White_Space`.
pub open spec fn white(c: char) -> bool {
    let u = c as int;
    ||| 0x09 <= u <= 0x0d
    ||| u == 0x20
    ||| u == 0x85
    ||| u == 0xa0
    ||| u == 0x1680
    ||| 0x2000 <= u <= 0x200a
    ||| 0x2028 <= u <= 0x2029
    ||| u == 0x202f
    ||| u == 0x205f
    ||| u == 0x3000
}

/// Whether a character has the Unicode property `White_Space`.
pub fn is_white(c: char) -> (r: bool)
    ensures
        r == white(c),
{
    let u: u32 = c as u32;
    (0x09 <= u && u <= 0x0d) || u == 0x20 || u == 0x85 || u == 0xa0 || u == 0x1680 || (0x2000 <= u
        && u <= 0x200a) || (0x2028 <= u && u <= 0x2029) || u == 0x202f || u == 0x205f || u == 0x3000
}

/// A text without the white space at its end.
pub open spec fn trim_end_spec(s: Seq<char>) -> Seq<char>
    decreases s.len(),
{
    if s.len() > 0 && white(s.last()) {
        trim_end_spec(s.drop_last())
    } else {
        s
    }
}

/// A text without the white space at its start.
pub open spec fn trim_start_spec(s: Seq<char>) -> Seq<char>
    decreases s.len(),
{
    if s.len() > 0 && white(s[0]) {
        trim_start_spec(s.drop_first())
    } else {
        s
    }
}

/// A text without the white space at either end.
pub open spec fn trim_spec(s: Seq<char>) -> Seq<char> {
    trim_start_spec(trim_end_spec(s))
}

/// Where the white space at the end of `chars` starts.
fn end_of_text(chars: &Vec<char>) -> (end: usize)
    ensures
        end <= chars@.len(),
        chars@.take(end as int) == trim_end_spec(chars@),
{
    let mut end: usize = chars.len();
    assert(chars@.take(end as int) =~= chars@);
    while end > 0 && is_white(chars[end - 1])
        invariant
            end <= chars@.len(),
            trim_end_spec(chars@.take(end as int)) == trim_end_spec(chars@),
        decreases end,
    {
        assert(chars@.take(end as int).drop_last() =~= chars@.take(end - 1));
        end = end - 1;
    }
    end
}

/// A text without the white space at its end.
pub fn trim_end(s: &str) -> (r: String)
    ensures
        r@ == trim_end_spec(s@),
{
    let chars: Vec<char> = characters(s);
    let end: usize = end_of_text(&chars);
    assert(s@.subrange(0, end as int) =~= chars@.take(end as int));
    s.substring_char(0, end).to_owned()
}

/// A text without the white space at either end.
pub fn trim(s: &str) -> (r: String)
    ensures
        r@ == trim_spec(s@),
{
    let chars: Vec<char> = characters(s);
    let end: usize = end_of_text(&chars);
    let mut start: usize = 0;
    let ghost kept = chars@.take(end as int);
    assert(kept.skip(0) =~= kept);
    while start < end && is_white(chars[start])
        invariant
            start <= end <= chars@.len(),
            kept == chars@.take(end as int),
            trim_start_spec(kept.skip(start as int)) == trim_start_spec(kept),
        decreases end - start,
    {
        assert(kept.skip(start as int).drop_first() =~= kept.skip(start + 1));
        start = start + 1;
    }
    assert(s@.subrange(start as int, end as int) =~= kept.skip(start as int));
    s.substring_char(start, end).to_owned()
}

/// Whether a text holds white space only.
pub fn is_blank(s: &str) -> (r: bool)
    ensures
        r == (trim_spec(s@).len() == 0),
{
    let trimmed: String = trim(s);
    let chars: Vec<char> = characters(trimmed.as_str());
    chars.len() == 0
}

/// A text without the white space at its end is the start of the text, does not end in
/// white space, and leaves out nothing but white space.
pub proof fn law_trim_end(s: Seq<char>)
    ensures
        ({
            let t = trim_end_spec(s);
            &&& t.len() <= s.len()
            &&& t == s.take(t.len() as int)
            &&& t.len() > 0 ==> !white(t.last())
            &&& forall|i: int| t.len() <= i < s.len() ==> white(s[i])
        }),
    decreases s.len(),
{
    let t = trim_end_spec(s);
    if s.len() > 0 && white(s.last()) {
        let r = s.drop_last();
        law_trim_end(r);
        assert(r.take(t.len() as int) =~= s.take(t.len() as int));
        assert forall|i: int| t.len() <= i < s.len() implies white(s[i]) by {
            if i < r.len() {
                assert(s[i] == r[i]);
            }
        }
    } else {
        assert(s.take(s.len() as int) =~= s);
    }
}

/// A text without the white space at its start is the end of the text, does not start
/// with white space, and leaves out nothing but white space.
proof fn lemma_trim_start(s: Seq<char>)
    ensures
        ({
            let t = trim_start_spec(s);
            &&& t.len() <= s.len()
            &&& t == s.skip(s.len() - t.len())
            &&& t.len() > 0 ==> !white(t[0])
            &&& forall|i: int| 0 <= i < s.len() - t.len() ==> white(s[i])
        }),
    decreases s.len(),
{
    let t = trim_start_spec(s);
    if s.len() > 0 && white(s[0]) {
        let r = s.drop_first();
        lemma_trim_start(r);
        assert(r.skip(r.len() - t.len()) =~= s.skip(s.len() - t.len()));
        assert forall|i: int| 0 <= i < s.len() - t.len() implies white(s[i]) by {
            if i > 0 {
                assert(s[i] == r[i - 1]);
            }
        }
    } else {
        assert(s.skip(0) =~= s);
    }
}

/// A trimmed text is a part of the text that neither starts nor ends with white space,
/// and what is left out on either side is white space.
pub proof fn law_trim(s: Seq<char>)
    ensures
        exists|from: int, to: int|
            {
                &&& 0 <= from <= to <= s.len()
                &&& trim_spec(s) == #[trigger] s.subrange(from, to)
                &&& from < to ==> !white(s[from]) && !white(s[to - 1])
                &&& forall|i: int| 0 <= i < s.len() && (i < from || i >= to) ==> white(s[i])
            },
{
    let kept = trim_end_spec(s);
    let t = trim_spec(s);
    law_trim_end(s);
    lemma_trim_start(kept);
    let from = kept.len() - t.len();
    let to = kept.len() as int;
    assert(t =~= s.subrange(from, to));
    assert forall|i: int| 0 <= i < s.len() && (i < from || i >= to) implies white(s[i]) by {
        if i < from {
            assert(kept[i] == s[i]);
        }
    }
    if from < to {
        assert(t[0] == s[from]);
        assert(kept.last() == s[to - 1]);
    }
}

/// Whether the characters of `a` stand in `b`, in their order.
pub open spec fn part_of(a: Seq<char>, b: Seq<char>) -> bool
    decreases b.len(),
{
    if a.len() == 0 {
        true
    } else if b.len() == 0 {
        false
    } else {
        ||| a.last() == b.last() && part_of(a.drop_last(), b.drop_last())
        ||| part_of(a, b.drop_last())
    }
}

/// The characters of a text that are not white space.
pub open spec fn ink(s: Seq<char>) -> Seq<char>
    decreases s.len(),
{
    if s.len() == 0 {
        seq![]
    } else if white(s.last()) {
        ink(s.drop_last())
    } else {
        ink(s.drop_last()).push(s.last())
    }
}

/// A part stays a part when the same character follows both, and when one follows the
/// whole.
pub proof fn lemma_part_push(a: Seq<char>, b: Seq<char>, c: char)
    requires
        part_of(a, b),
    ensures
        part_of(a.push(c), b.push(c)),
        part_of(a, b.push(c)),
{
    assert(a.push(c).drop_last() =~= a);
    assert(b.push(c).drop_last() =~= b);
}

/// Two parts in a row are a part of the two wholes in a row.
pub proof fn lemma_part_join(a: Seq<char>, b: Seq<char>, c: Seq<char>, d: Seq<char>)
    requires
        part_of(a, b),
        part_of(c, d),
    ensures
        part_of(a + c, b + d),
    decreases d.len(),
{
    if d.len() == 0 {
        assert(a + c =~= a);
        assert(b + d =~= b);
    } else {
        let e = d.drop_last();
        assert(b + d =~= (b + e).push(d.last()));
        if c.len() == 0 {
            lemma_part_join(a, b, c, e);
            lemma_part_push(a + c, b + e, d.last());
        } else if c.last() == d.last() && part_of(c.drop_last(), e) {
            lemma_part_join(a, b, c.drop_last(), e);
            assert(a + c =~= (a + c.drop_last()).push(c.last()));
            lemma_part_push(a + c.drop_last(), b + e, c.last());
        } else {
            lemma_part_join(a, b, c, e);
            lemma_part_push(a + c, b + e, d.last());
        }
    }
}

/// A part stays a part without the white space of both.
pub proof fn lemma_part_ink(a: Seq<char>, b: Seq<char>)
    requires
        part_of(a, b),
    ensures
        part_of(ink(a), ink(b)),
    decreases b.len(),
{
    if a.len() > 0 {
        let e = b.drop_last();
        if a.last() == b.last() && part_of(a.drop_last(), e) {
            lemma_part_ink(a.drop_last(), e);
            lemma_part_push(ink(a.drop_last()), ink(e), b.last());
        } else {
            lemma_part_ink(a, e);
            lemma_part_push(ink(a), ink(e), b.last());
        }
    }
}

/// White space at the start leaves the rest of the ink as it is.
proof fn lemma_ink_first(s: Seq<char>)
    requires
        s.len() > 0,
        white(s[0]),
    ensures
        ink(s.drop_first()) == ink(s),
    decreases s.len(),
{
    if s.len() == 1 {
        assert(s.drop_first() =~= seq![]);
        assert(s.drop_last() =~= seq![]);
    } else {
        lemma_ink_first(s.drop_last());
        assert(s.drop_first().drop_last() =~= s.drop_last().drop_first());
    }
}

/// Trimming keeps every character that is not white space.
pub proof fn law_trim_keeps_the_ink(s: Seq<char>)
    ensures
        ink(trim_end_spec(s)) == ink(s),
        ink(trim_start_spec(s)) == ink(s),
        ink(trim_spec(s)) == ink(s),
    decreases s.len(),
{
    if s.len() > 0 && white(s.last()) {
        law_trim_keeps_the_ink(s.drop_last());
    }
    if s.len() > 0 && white(s[0]) {
        lemma_ink_first(s);
        law_trim_keeps_the_ink(s.drop_first());
    }
    let kept = trim_end_spec(s);
    law_trim_end(s);
    if kept.len() < s.len() {
        law_trim_keeps_the_ink(kept);
    } else {
        assert(kept =~= s);
    }
}

} // verus!
