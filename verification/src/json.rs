//! JSON values.
use crate::float::{Double, Single};
use crate::text::same;
use vstd::prelude::*;

verus! {

/// A JSON number: an unsigned integer, a negative integer, or a double-precision
/// number.
#[derive(Clone, Copy, Debug, PartialEq, Eq, Structural)]
pub enum Number {
    PosInt(u64),
    NegInt(i64),
    Float(Double),
}

/// A JSON value. The members of an object keep the order they were given in.
#[derive(Debug, PartialEq)]
pub enum Json {
    Null,
    Bool(bool),
    Number(Number),
    Text(String),
    Array(Vec<Json>),
    Object(Vec<(String, Json)>),
}

/// What a JSON value says.
#[verifier::ext_equal]
pub enum Tree {
    Null,
    Bool(bool),
    Number(Number),
    Text(Seq<char>),
    Array(Seq<Tree>),
    Object(Seq<(Seq<char>, Tree)>),
}

/// The value of the first of `members` with the key `key`.
pub open spec fn find(members: Seq<(Seq<char>, Tree)>, key: Seq<char>) -> Option<Tree>
    decreases members.len(),
{
    if members.len() == 0 {
        None
    } else if members[0].0 == key {
        Some(members[0].1)
    } else {
        find(members.drop_first(), key)
    }
}

impl Tree {
    /// The member of an object with the key `key`.
    pub open spec fn get(self, key: Seq<char>) -> Option<Tree> {
        match self {
            Tree::Object(members) => find(members, key),
            _ => None,
        }
    }

    /// The characters of a text.
    pub open spec fn as_text(self) -> Option<Seq<char>> {
        match self {
            Tree::Text(s) => Some(s),
            _ => None,
        }
    }

    /// An integer.
    pub open spec fn as_integer(self) -> Option<int> {
        match self {
            Tree::Number(Number::PosInt(n)) => Some(n as int),
            Tree::Number(Number::NegInt(n)) => Some(n as int),
            _ => None,
        }
    }

    /// An unsigned integer.
    pub open spec fn as_u64(self) -> Option<u64> {
        match self {
            Tree::Number(Number::PosInt(n)) => Some(n),
            _ => None,
        }
    }

    /// A number, in double precision.
    pub open spec fn as_double(self) -> Option<Double> {
        match self {
            Tree::Number(Number::PosInt(n)) => Some(Double::from_int(n as int)),
            Tree::Number(Number::NegInt(n)) => Some(Double::from_int(n as int)),
            Tree::Number(Number::Float(d)) => Some(d),
            _ => None,
        }
    }

    /// The text of the member `key`.
    pub open spec fn text_at(self, key: Seq<char>) -> Option<Seq<char>> {
        match self.get(key) {
            Some(v) => v.as_text(),
            None => None,
        }
    }

    /// The integer at the member `key`.
    pub open spec fn integer_at(self, key: Seq<char>) -> Option<int> {
        match self.get(key) {
            Some(v) => v.as_integer(),
            None => None,
        }
    }

    /// The unsigned integer at the member `key`.
    pub open spec fn u64_at(self, key: Seq<char>) -> Option<u64> {
        match self.get(key) {
            Some(v) => v.as_u64(),
            None => None,
        }
    }

    /// The number at the member `key`.
    pub open spec fn double_at(self, key: Seq<char>) -> Option<Double> {
        match self.get(key) {
            Some(v) => v.as_double(),
            None => None,
        }
    }
}

/// Whether two objects have the same members, but for the member `key`.
pub open spec fn agree_but(a: Tree, b: Tree, key: Seq<char>) -> bool {
    forall|k: Seq<char>| k != key ==> #[trigger] a.get(k) == b.get(k)
}

/// An integer as a JSON number.
pub open spec fn int_tree(n: int) -> Tree {
    if n < 0 {
        Tree::Number(Number::NegInt(n as i64))
    } else {
        Tree::Number(Number::PosInt(n as u64))
    }
}

/// A single-precision number as a JSON value: the same number in double
/// precision, null for what is not finite.
pub open spec fn single_tree(s: Single) -> Tree {
    if s.finite() {
        Tree::Number(Number::Float(s.widen_spec()))
    } else {
        Tree::Null
    }
}

impl Json {
    /// What this value says.
    pub open spec fn tree(self) -> Tree
        decreases self,
    {
        match self {
            Json::Null => Tree::Null,
            Json::Bool(b) => Tree::Bool(b),
            Json::Number(n) => Tree::Number(n),
            Json::Text(s) => Tree::Text(s@),
            Json::Array(v) => Tree::Array(
                Seq::new(
                    v@.len(),
                    |i: int|
                        if 0 <= i < v@.len() {
                            v@[i].tree()
                        } else {
                            Tree::Null
                        },
                ),
            ),
            Json::Object(v) => Tree::Object(
                Seq::new(
                    v@.len(),
                    |i: int|
                        if 0 <= i < v@.len() {
                            (v@[i].0@, v@[i].1.tree())
                        } else {
                            (seq![], Tree::Null)
                        },
                ),
            ),
        }
    }
}

impl View for Json {
    type V = Tree;

    open spec fn view(&self) -> Tree {
        self.tree()
    }
}

/// What a run of values says.
pub open spec fn items_view(v: Seq<Json>) -> Seq<Tree> {
    Seq::new(v.len(), |i: int| v[i]@)
}

/// What a run of object members says.
pub open spec fn members_view(v: Seq<(String, Json)>) -> Seq<(Seq<char>, Tree)> {
    Seq::new(v.len(), |i: int| (v[i].0@, v[i].1@))
}

/// An array says what its items say.
pub broadcast proof fn lemma_array_view(v: Vec<Json>)
    ensures
        #[trigger] Json::Array(v)@ == Tree::Array(items_view(v@)),
{
    let a = Json::Array(v).tree()->Array_0;
    assert forall|i: int| 0 <= i < v@.len() implies a[i] == items_view(v@)[i] by {
        assert(a[i] == v@[i].tree());
    }
    assert(a =~= items_view(v@));
}

/// An object says what its members say.
pub broadcast proof fn lemma_object_view(v: Vec<(String, Json)>)
    ensures
        #[trigger] Json::Object(v)@ == Tree::Object(members_view(v@)),
{
    let a = Json::Object(v).tree()->Object_0;
    assert forall|i: int| 0 <= i < v@.len() implies a[i] == members_view(v@)[i] by {
        assert(a[i] == (v@[i].0@, v@[i].1.tree()));
    }
    assert(a =~= members_view(v@));
}

impl Clone for Json {
    fn clone(&self) -> (r: Self)
        ensures
            r@ == self@,
        decreases self,
    {
        broadcast use lemma_array_view, lemma_object_view;

        match self {
            Json::Null => Json::Null,
            Json::Bool(b) => Json::Bool(*b),
            Json::Number(n) => Json::Number(*n),
            Json::Text(s) => Json::Text(s.clone()),
            Json::Array(v) => {
                let mut out: Vec<Json> = Vec::new();
                let mut i: usize = 0;
                while i < v.len()
                    invariant
                        0 <= i <= v@.len(),
                        out@.len() == i,
                        self->Array_0 == *v,
                        *self is Array,
                        forall|j: int| 0 <= j < i ==> #[trigger] out@[j]@ == v@[j]@,
                    decreases v@.len() - i,
                {
                    assert(decreases_to!(*self => self->Array_0));
                    assert(decreases_to!(*v => v@));
                    assert(decreases_to!(v@ => v@[i as int]));
                    let item: Json = v[i].clone();
                    out.push(item);
                    i += 1;
                }
                assert(items_view(out@) =~= items_view(v@));
                Json::Array(out)
            },
            Json::Object(v) => {
                let mut out: Vec<(String, Json)> = Vec::new();
                let mut i: usize = 0;
                while i < v.len()
                    invariant
                        0 <= i <= v@.len(),
                        out@.len() == i,
                        self->Object_0 == *v,
                        *self is Object,
                        forall|j: int|
                            0 <= j < i ==> (#[trigger] out@[j]).0@ == v@[j].0@ && out@[j].1@
                                == v@[j].1@,
                    decreases v@.len() - i,
                {
                    assert(decreases_to!(*self => self->Object_0));
                    assert(decreases_to!(*v => v@));
                    assert(decreases_to!(v@ => v@[i as int]));
                    assert(decreases_to!(v@[i as int] => v@[i as int].1));
                    let item: Json = v[i].1.clone();
                    out.push((v[i].0.clone(), item));
                    i += 1;
                }
                assert(members_view(out@) =~= members_view(v@));
                Json::Object(out)
            },
        }
    }
}

impl Json {
    /// A text.
    pub fn text(s: &str) -> (r: Json)
        ensures
            r@ == Tree::Text(s@),
    {
        Json::Text(s.to_owned())
    }

    /// An unsigned integer.
    pub fn unsigned(n: u64) -> (r: Json)
        ensures
            r@ == int_tree(n as int),
    {
        Json::Number(Number::PosInt(n))
    }

    /// A signed integer.
    pub fn integer(n: i64) -> (r: Json)
        ensures
            r@ == int_tree(n as int),
    {
        if n < 0 {
            Json::Number(Number::NegInt(n))
        } else {
            Json::Number(Number::PosInt(n as u64))
        }
    }

    /// A single-precision number; null for what is not finite.
    pub fn single(s: Single) -> (r: Json)
        ensures
            r@ == single_tree(s),
    {
        if s.is_finite() {
            Json::Number(Number::Float(s.widen()))
        } else {
            Json::Null
        }
    }

    /// An array of the given items.
    pub fn array(items: Vec<Json>) -> (r: Json)
        ensures
            r@ == Tree::Array(items_view(items@)),
    {
        broadcast use lemma_array_view;

        Json::Array(items)
    }

    /// An array of one item.
    pub fn single_item(item: Json) -> (r: Json)
        ensures
            r@ == Tree::Array(seq![item@]),
    {
        broadcast use lemma_array_view;

        let mut items: Vec<Json> = Vec::new();
        items.push(item);
        assert(items_view(items@) =~= seq![item@]);
        Json::Array(items)
    }

    /// An object without members.
    pub fn object() -> (r: Json)
        ensures
            r@ == Tree::Object(seq![]),
    {
        broadcast use lemma_object_view;

        let members: Vec<(String, Json)> = Vec::new();
        assert(members_view(members@) =~= seq![]);
        Json::Object(members)
    }

    /// This object with one more member at its end; another value as it is.
    pub fn with(self, key: &str, value: Json) -> (r: Json)
        ensures
            r@ == match self@ {
                Tree::Object(members) => Tree::Object(members.push((key@, value@))),
                other => other,
            },
    {
        broadcast use lemma_object_view;

        match self {
            Json::Object(members) => {
                let mut out = members;
                out.push((key.to_owned(), value));
                assert(members_view(out@) =~= members_view(members@).push((key@, value@)));
                Json::Object(out)
            },
            other => other,
        }
    }

    /// The member of an object with the key `key`.
    pub fn get(&self, key: &str) -> (r: Option<&Json>)
        ensures
            r is Some <==> self@.get(key@) is Some,
            r matches Some(v) ==> self@.get(key@) == Some(v@),
    {
        broadcast use lemma_object_view;

        match self {
            Json::Object(members) => {
                let ghost all = members_view(members@);
                let mut i: usize = 0;
                assert(all.skip(0) =~= all);
                while i < members.len()
                    invariant
                        i <= members@.len(),
                        all == members_view(members@),
                        find(all, key@) == find(all.skip(i as int), key@),
                        self@ == Tree::Object(all),
                    decreases members@.len() - i,
                {
                    assert(all.skip(i as int)[0] == all[i as int]);
                    if same(members[i].0.as_str(), key) {
                        return Some(&members[i].1);
                    }
                    assert(all.skip(i as int).drop_first() =~= all.skip(i + 1));
                    i += 1;
                }
                None
            },
            _ => None,
        }
    }

    /// Whether an object has a member with the key `key`.
    pub fn has(&self, key: &str) -> (r: bool)
        ensures
            r == self@.get(key@) is Some,
    {
        self.get(key).is_some()
    }

    /// The text of the member `key`.
    pub fn text_at(&self, key: &str) -> (r: Option<String>)
        ensures
            r is Some <==> self@.text_at(key@) is Some,
            r matches Some(s) ==> self@.text_at(key@) == Some(s@),
    {
        match self.get(key) {
            Some(Json::Text(s)) => Some(s.clone()),
            _ => None,
        }
    }

    /// The integer at the member `key`.
    pub fn integer_at(&self, key: &str) -> (r: Option<i128>)
        ensures
            match r {
                Some(n) => self@.integer_at(key@) == Some(n as int)
                    && -0x8000_0000_0000_0000 <= n <= 0xffff_ffff_ffff_ffff,
                None => self@.integer_at(key@) is None,
            },
    {
        match self.get(key) {
            Some(Json::Number(Number::PosInt(n))) => Some(*n as i128),
            Some(Json::Number(Number::NegInt(n))) => Some(*n as i128),
            _ => None,
        }
    }

    /// The unsigned integer at the member `key`.
    pub fn u64_at(&self, key: &str) -> (r: Option<u64>)
        ensures
            r == self@.u64_at(key@),
    {
        match self.get(key) {
            Some(Json::Number(Number::PosInt(n))) => Some(*n),
            _ => None,
        }
    }

    /// The number at the member `key`, in double precision.
    pub fn double_at(&self, key: &str) -> (r: Option<Double>)
        ensures
            r == self@.double_at(key@),
    {
        match self.get(key) {
            Some(Json::Number(Number::PosInt(n))) => Some(Double::from_u64(*n)),
            Some(Json::Number(Number::NegInt(n))) => Some(Double::from_i64(*n)),
            Some(Json::Number(Number::Float(d))) => Some(*d),
            _ => None,
        }
    }
}

} // verus!
