//! Reading JSON: a list of items, and what stands at a place in one.

use vstd::prelude::*;
use crate::text::copy_str;

verus! {

/// A JSON value, by `serde_json`.
#[verifier::external_type_specification]
#[verifier::external_body]
pub struct ExValue(serde_json::Value);

/// What stands at a place in a JSON value: a scalar, or the outside of a
/// container.
#[derive(Debug)]
pub enum Leaf {
    Null,
    Bool(bool),
    Number(Number),
    Text(String),
    /// A list with so many elements.
    Array(usize),
    Object,
}

/// A JSON number: as an unsigned and a signed integer where it is one, and
/// cut off at its point, held to the range of the type.
#[derive(Debug, Clone, Copy)]
pub struct Number {
    pub unsigned: Option<u64>,
    pub signed: Option<i64>,
    pub whole: i32,
}

/// What a `Leaf` says.
pub enum Scalar {
    Null,
    Bool(bool),
    Number(Number),
    Text(Seq<char>),
    Array(usize),
    Object,
}

impl View for Leaf {
    type V = Scalar;

    open spec fn view(&self) -> Scalar {
        match *self {
            Leaf::Null => Scalar::Null,
            Leaf::Bool(b) => Scalar::Bool(b),
            Leaf::Number(n) => Scalar::Number(n),
            Leaf::Text(s) => Scalar::Text(s@),
            Leaf::Array(n) => Scalar::Array(n),
            Leaf::Object => Scalar::Object,
        }
    }
}

/// What a JSON value holds: at each JSON pointer that leads somewhere in it,
/// what stands there.
pub uninterp spec fn contents(v: serde_json::Value) -> Map<Seq<char>, Scalar>;

/// The items of a text that is a JSON list, by what each of them holds; `None`
/// for any other text.
pub uninterp spec fn listed(text: Seq<u8>) -> Option<Seq<Map<Seq<char>, Scalar>>>;

/// `serde_json::from_slice` into a list of values, as a result that depends on
/// the bytes alone: the grammar of JSON decides what it is.
#[verifier::external_body]
pub(crate) fn parse_list(text: &[u8]) -> (r: Option<Vec<serde_json::Value>>)
    ensures
        match r {
            Some(v) => listed(text@) == Some(v@.map_values(|x: serde_json::Value| contents(x))),
            None => listed(text@) is None,
        },
{
    serde_json::from_slice(text).ok()
}

/// `serde_json::Value::pointer`, then `as_u64`, `as_i64` and `as_f64` of a
/// number there: what stands at `pointer`, and nothing where it leads nowhere.
#[verifier::external_body]
pub(crate) fn leaf_at(v: &serde_json::Value, pointer: &str) -> (r: Option<Leaf>)
    ensures
        r is Some <==> contents(*v).contains_key(pointer@),
        r matches Some(l) ==> l@ == contents(*v)[pointer@],
{
    v.pointer(pointer).map(|x| match x {
        serde_json::Value::Null => Leaf::Null,
        serde_json::Value::Bool(b) => Leaf::Bool(*b),
        serde_json::Value::Number(n) => Leaf::Number(Number {
            unsigned: n.as_u64(),
            signed: n.as_i64(),
            whole: n.as_f64().map_or(0, |f| f as i32),
        }),
        serde_json::Value::String(s) => Leaf::Text(s.clone()),
        serde_json::Value::Array(a) => Leaf::Array(a.len()),
        serde_json::Value::Object(_) => Leaf::Object,
    })
}

/// What stands at `pointer` in `item`.
pub open spec fn at(item: Map<Seq<char>, Scalar>, pointer: Seq<char>) -> Option<Scalar> {
    if item.contains_key(pointer) {
        Some(item[pointer])
    } else {
        None
    }
}

/// What an optional leaf says.
pub open spec fn said(l: Option<Leaf>) -> Option<Scalar> {
    match l {
        Some(x) => Some(x@),
        None => None,
    }
}

pub open spec fn unsigned_in(s: Option<Scalar>) -> Option<u64> {
    match s {
        Some(Scalar::Number(n)) => n.unsigned,
        _ => None,
    }
}

/// The unsigned integer that stands there.
pub fn unsigned_of(l: &Option<Leaf>) -> (r: Option<u64>)
    ensures
        r == unsigned_in(said(*l)),
{
    match l {
        Some(Leaf::Number(n)) => n.unsigned,
        _ => None,
    }
}

pub open spec fn signed_in(s: Option<Scalar>) -> Option<i64> {
    match s {
        Some(Scalar::Number(n)) => n.signed,
        _ => None,
    }
}

/// The signed integer that stands there.
pub fn signed_of(l: &Option<Leaf>) -> (r: Option<i64>)
    ensures
        r == signed_in(said(*l)),
{
    match l {
        Some(Leaf::Number(n)) => n.signed,
        _ => None,
    }
}

pub open spec fn whole_in(s: Option<Scalar>) -> i32 {
    match s {
        Some(Scalar::Number(n)) => n.whole,
        _ => 0,
    }
}

/// The number that stands there, cut off at its point; 0 for anything else.
pub fn whole_of(l: &Option<Leaf>) -> (r: i32)
    ensures
        r == whole_in(said(*l)),
{
    match l {
        Some(Leaf::Number(n)) => n.whole,
        _ => 0,
    }
}

pub open spec fn text_in(s: Option<Scalar>) -> Option<Seq<char>> {
    match s {
        Some(Scalar::Text(t)) => Some(t),
        _ => None,
    }
}

/// The text that stands there; empty for anything else.
pub fn text_or_empty(l: &Option<Leaf>) -> (r: String)
    ensures
        r@ == (match text_in(said(*l)) {
            Some(t) => t,
            None => Seq::empty(),
        }),
{
    match l {
        Some(Leaf::Text(t)) => copy_str(t.as_str()),
        _ => {
            let r: String = String::new();
            assert(r@ =~= Seq::empty());
            r
        },
    }
}

pub open spec fn is_list(s: Option<Scalar>) -> bool {
    s matches Some(Scalar::Array(_))
}

/// A list stands there.
pub fn list_there(l: &Option<Leaf>) -> (r: bool)
    ensures
        r == is_list(said(*l)),
{
    match l {
        Some(Leaf::Array(_)) => true,
        _ => false,
    }
}

/// A list of two: the list itself, and its first two elements.
#[derive(Debug)]
pub struct Pair {
    pub list: Option<Leaf>,
    pub first: Option<Leaf>,
    pub second: Option<Leaf>,
}

/// What a `Pair` says.
pub struct PairSaid {
    pub list: Option<Scalar>,
    pub first: Option<Scalar>,
    pub second: Option<Scalar>,
}

impl View for Pair {
    type V = PairSaid;

    open spec fn view(&self) -> PairSaid {
        PairSaid {
            list: said(self.list),
            first: said(self.first),
            second: said(self.second),
        }
    }
}

/// The pair at the three pointers.
pub(crate) fn pair_at(v: &serde_json::Value, list: &str, first: &str, second: &str) -> (p: Pair)
    ensures
        p@ == (PairSaid {
            list: at(contents(*v), list@),
            first: at(contents(*v), first@),
            second: at(contents(*v), second@),
        }),
{
    Pair { list: leaf_at(v, list), first: leaf_at(v, first), second: leaf_at(v, second) }
}

} // verus!
