//! JSON text: reading, writing and comparing numbers through `serde_json`.
//!
//! The functions marked `external_body` here are the only places where JSON
//! text is produced or consumed; what they are trusted for stands above each.
use crate::json::{keys_ascend, Json, JsonMap, JsonNumber, JsonView, NumberView};
use crate::text::Order;
use vstd::prelude::*;

verus! {

/// `serde_json::Value`, carried between the functions of this module.
#[verifier::external_type_specification]
#[verifier::external_body]
pub struct ExJsonValue(serde_json::Value);

/// What `serde_json` writes for a value in its compact form.
pub uninterp spec fn json_text(value: JsonView) -> Seq<char>;

/// What `serde_json` reads from bytes: a value, or the message it refuses with.
pub uninterp spec fn json_read(bytes: Seq<u8>) -> Result<JsonView, Seq<char>>;

/// How two numbers compare once each is taken as a double; `None` when a text
/// is no finite number.
pub uninterp spec fn double_order(a: NumberView, b: NumberView) -> Option<Order>;

/// What a decimal text reads as: nothing, a number too large to be finite, or
/// a finite number by its shortest text.
pub uninterp spec fn double_text(text: Seq<char>) -> Option<Option<Seq<char>>>;

/// A value that survives being written and read back: no number but integers,
/// every object by ascending key, and nesting within the reader's limit.
pub open spec fn plain(value: JsonView, depth: nat) -> bool
    decreases value,
{
    match value {
        JsonView::Null => true,
        JsonView::Bool(_) => true,
        JsonView::Number(n) => match n {
            NumberView::PosInt(_) => true,
            NumberView::NegInt(i) => i < 0,
            NumberView::Float(_) => false,
        },
        JsonView::Text(_) => true,
        JsonView::Array(items) => depth > 0 && forall|i: int|
            0 <= i < items.len() ==> plain(#[trigger] items[i], (depth - 1) as nat),
        JsonView::Object(m) => depth > 0 && keys_ascend(m) && forall|i: int|
            0 <= i < m.len() ==> plain((#[trigger] m[i]).1, (depth - 1) as nat),
    }
}

/// `bytes` read as `value`.
pub open spec fn reads_as(bytes: Seq<u8>, value: JsonView) -> bool {
    json_read(bytes) is Ok && json_read(bytes)->Ok_0 == value
}

/// The integer a number is, where it is one.
pub open spec fn integer_of(n: NumberView) -> Option<int> {
    match n {
        NumberView::PosInt(u) => Some(u as int),
        NumberView::NegInt(i) => Some(i as int),
        NumberView::Float(_) => None,
    }
}

/// The integer a number is, where it is one that a double holds without
/// rounding.
pub open spec fn exact_integer(n: NumberView) -> Option<int> {
    match integer_of(n) {
        Some(i) => if -0x20_0000_0000_0000 <= i <= 0x20_0000_0000_0000 {
            Some(i)
        } else {
            None
        },
        None => None,
    }
}

/// How two numbers compare: integers that doubles hold by their value, anything
/// else as doubles.
pub open spec fn number_order(a: NumberView, b: NumberView) -> Option<Order> {
    match (exact_integer(a), exact_integer(b)) {
        (Some(x), Some(y)) => Some(
            if x < y {
                Order::Less
            } else if x == y {
                Order::Equal
            } else {
                Order::Greater
            },
        ),
        _ => double_order(a, b),
    }
}

/// Compares two numbers.
pub(crate) fn order_numbers(a: &JsonNumber, b: &JsonNumber) -> (r: Option<Order>)
    ensures
        r == number_order(a@, b@),
{
    compare_numbers(a, b)
}

/// Converts a number to `serde_json::Value`. A `Float` goes through
/// `Number::from_f64`; a text that is no finite number becomes `null`.
#[verifier::external_body]
fn number_to_value(n: &JsonNumber) -> serde_json::Value {
    match n {
        JsonNumber::PosInt(n) => serde_json::Value::from(*n),
        JsonNumber::NegInt(n) => serde_json::Value::from(*n),
        JsonNumber::Float(s) => s.parse().ok().and_then(serde_json::Number::from_f64).map_or(
            serde_json::Value::Null,
            serde_json::Value::Number,
        ),
    }
}

/// Converts to `serde_json::Value`, variant by variant.
#[verifier::external_body]
fn to_value(j: &Json) -> serde_json::Value {
    match j {
        Json::Null => serde_json::Value::Null,
        Json::Bool(b) => serde_json::Value::Bool(*b),
        Json::Number(n) => number_to_value(n),
        Json::Text(s) => serde_json::Value::String(s.clone()),
        Json::Array(v) => serde_json::Value::Array(v.iter().map(to_value).collect()),
        Json::Object(m) => serde_json::Value::Object(
            m.entries.iter().map(|e| (e.0.clone(), to_value(&e.1))).collect()),
    }
}

/// Converts the number that a `serde_json::Value` is. Integers keep their value;
/// any other number is kept by the text it is displayed as.
#[verifier::external_body]
fn number_from_value(v: &serde_json::Value) -> JsonNumber {
    match (v.as_u64(), v.as_i64()) {
        (Some(u), _) => JsonNumber::PosInt(u),
        (None, Some(i)) => JsonNumber::NegInt(i),
        (None, None) => JsonNumber::Float(v.to_string()),
    }
}

/// Converts from `serde_json::Value`, variant by variant.
#[verifier::external_body]
fn from_value(v: serde_json::Value) -> Json {
    match v {
        serde_json::Value::Null => Json::Null,
        serde_json::Value::Bool(b) => Json::Bool(b),
        serde_json::Value::Number(_) => Json::Number(number_from_value(&v)),
        serde_json::Value::String(s) => Json::Text(s),
        serde_json::Value::Array(a) => Json::Array(a.into_iter().map(from_value).collect()),
        serde_json::Value::Object(o) => Json::Object(
            JsonMap { entries: o.into_iter().map(|e| (e.0, from_value(e.1))).collect() }),
    }
}

/// `serde_json::to_string`: the compact text of a value. The text is named
/// `json_text`; a plain value nested no deeper than the reader's limit is what
/// `serde_json` reads back from that text.
#[verifier::external_body]
pub(crate) fn write_json(j: &Json) -> (r: String)
    ensures
        r@ == json_text(j@),
        plain(j@, 127) ==> reads_as(vstd::utf8::encode_utf8(r@), j@),
{
    serde_json::to_string(&to_value(j)).unwrap_or_default()
}

/// `serde_json::from_slice`: the value that bytes spell, or the message of the
/// refusal. The outcome is named `json_read`.
#[verifier::external_body]
pub(crate) fn read_json(bytes: &[u8]) -> (r: Result<Json, String>)
    ensures
        match r {
            Ok(j) => json_read(bytes@) is Ok && json_read(bytes@)->Ok_0 == j@,
            Err(e) => json_read(bytes@) is Err && json_read(bytes@)->Err_0 == e@,
        },
{
    serde_json::from_slice(bytes).map(from_value).map_err(|e| e.to_string())
}

/// `serde_json::Value::as_f64` on both numbers, compared as doubles. The
/// outcome is named `double_order`. Two integers always compare; the rounding
/// to doubles never turns their order round, and up to 2^53 it is exact.
#[verifier::external_body]
fn compare_numbers(a: &JsonNumber, b: &JsonNumber) -> (r: Option<Order>)
    ensures
        r == double_order(a@, b@),
        match (integer_of(a@), integer_of(b@)) {
            (Some(x), Some(y)) => {
                &&& r is Some
                &&& x == y ==> r == Some(Order::Equal)
                &&& x < y ==> r != Some(Order::Greater)
                &&& x > y ==> r != Some(Order::Less)
                &&& -0x20_0000_0000_0000 <= x < y <= 0x20_0000_0000_0000 ==> r == Some(Order::Less)
                &&& -0x20_0000_0000_0000 <= y < x <= 0x20_0000_0000_0000 ==> r == Some(
                    Order::Greater,
                )
            },
            _ => true,
        },
{
    let x = to_value(&Json::Number(a.clone())).as_f64()?;
    let y = to_value(&Json::Number(b.clone())).as_f64()?;
    x.partial_cmp(&y).map(|o| match o {
        std::cmp::Ordering::Less => Order::Less,
        std::cmp::Ordering::Equal => Order::Equal,
        std::cmp::Ordering::Greater => Order::Greater,
    })
}

/// `serde_json::Number::from_f64` on the double that `str::parse` reads, and
/// the text that number displays. The outcome is named `double_text`.
#[verifier::external_body]
pub(crate) fn read_double(s: &str) -> (r: Option<Option<String>>)
    ensures
        match r {
            None => double_text(s@) is None,
            Some(None) => double_text(s@) == Some(None::<Seq<char>>),
            Some(Some(t)) => double_text(s@) == Some(Some(t@)),
        },
{
    s.parse().ok().map(|x| serde_json::Number::from_f64(x).map(|n| n.to_string()))
}

} // verus!
