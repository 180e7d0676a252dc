//! JSON values: the document model every other module works on.
//!
//! An object keeps its members by ascending key. Numbers are kept the way a
//! parser tells them apart: non-negative integers, negative integers, and
//! everything else by its shortest decimal text.
use crate::text::{compare_text, same_text, text_order, Order};
use vstd::prelude::*;

verus! {

/// A JSON number.
#[derive(Debug)]
pub enum JsonNumber {
    /// Zero or a positive integer.
    PosInt(u64),
    /// A negative integer.
    NegInt(i64),
    /// Any other finite number, by the shortest decimal text that reads back
    /// as that number.
    Float(String),
}

/// A JSON value.
#[derive(Debug)]
pub enum Json {
    /// `null`.
    Null,
    /// `true` or `false`.
    Bool(bool),
    /// A number.
    Number(JsonNumber),
    /// A string.
    Text(String),
    /// An array.
    Array(Vec<Json>),
    /// An object.
    Object(JsonMap),
}

/// The members of a JSON object, by ascending key.
#[derive(Debug)]
pub struct JsonMap {
    /// Key and value of each member.
    pub entries: Vec<(String, Json)>,
}

/// Model of a JSON number.
#[verifier::ext_equal]
pub enum NumberView {
    PosInt(u64),
    NegInt(i64),
    Float(Seq<char>),
}

/// Model of a JSON value.
#[verifier::ext_equal]
pub enum JsonView {
    Null,
    Bool(bool),
    Number(NumberView),
    Text(Seq<char>),
    Array(Seq<JsonView>),
    Object(Seq<(Seq<char>, JsonView)>),
}

impl View for JsonNumber {
    type V = NumberView;

    open spec fn view(&self) -> NumberView {
        match self {
            JsonNumber::PosInt(n) => NumberView::PosInt(*n),
            JsonNumber::NegInt(n) => NumberView::NegInt(*n),
            JsonNumber::Float(s) => NumberView::Float(s@),
        }
    }
}

impl Json {
    /// The value as its model.
    pub open spec fn model(&self) -> JsonView
        decreases self,
    {
        match self {
            Json::Null => JsonView::Null,
            Json::Bool(b) => JsonView::Bool(*b),
            Json::Number(n) => JsonView::Number(n@),
            Json::Text(s) => JsonView::Text(s@),
            Json::Array(v) => JsonView::Array(
                Seq::new(
                    v@.len(),
                    |i: int|
                        if 0 <= i < v@.len() {
                            v@[i].model()
                        } else {
                            JsonView::Null
                        },
                ),
            ),
            Json::Object(m) => JsonView::Object(
                Seq::new(
                    m.entries@.len(),
                    |i: int|
                        if 0 <= i < m.entries@.len() {
                            (m.entries@[i].0@, m.entries@[i].1.model())
                        } else {
                            (Seq::empty(), JsonView::Null)
                        },
                ),
            ),
        }
    }
}

impl View for Json {
    type V = JsonView;

    open spec fn view(&self) -> JsonView {
        self.model()
    }
}

impl View for JsonMap {
    type V = Seq<(Seq<char>, JsonView)>;

    open spec fn view(&self) -> Seq<(Seq<char>, JsonView)> {
        members(self.entries@)
    }
}

/// The models of a list of values.
pub open spec fn models(v: Seq<Json>) -> Seq<JsonView> {
    Seq::new(v.len(), |i: int| v[i]@)
}

/// The models of a list of members.
pub open spec fn members(m: Seq<(String, Json)>) -> Seq<(Seq<char>, JsonView)> {
    Seq::new(m.len(), |i: int| (m[i].0@, m[i].1@))
}

/// An array is modelled element by element.
pub broadcast proof fn lemma_array_model(v: Vec<Json>)
    ensures
        #[trigger] Json::Array(v)@ == JsonView::Array(models(v@)),
{
    let j = Json::Array(v);
    assert(j@->Array_0 =~= models(v@));
}

/// An object is modelled member by member.
pub broadcast proof fn lemma_object_model(m: JsonMap)
    ensures
        #[trigger] Json::Object(m)@ == JsonView::Object(m@),
{
    let j = Json::Object(m);
    assert(j@->Object_0 =~= m@);
}

/// How arrays and objects are modelled.
pub broadcast group group_json_model {
    lemma_array_model,
    lemma_object_model,
}

/// The value of the first member named `key`.
pub open spec fn lookup(m: Seq<(Seq<char>, JsonView)>, key: Seq<char>) -> Option<JsonView>
    decreases m.len(),
{
    if m.len() == 0 {
        None
    } else if m[0].0 == key {
        Some(m[0].1)
    } else {
        lookup(m.drop_first(), key)
    }
}

/// The members `m` with `key` set to `value`: a member of that name is
/// replaced, a new one is put at its place in key order.
pub open spec fn with_member(
    m: Seq<(Seq<char>, JsonView)>,
    key: Seq<char>,
    value: JsonView,
) -> Seq<(Seq<char>, JsonView)>
    decreases m.len(),
{
    if m.len() == 0 {
        seq![(key, value)]
    } else {
        match text_order(key, m[0].0) {
            Order::Less => seq![(key, value)] + m,
            Order::Equal => seq![(key, value)] + m.drop_first(),
            Order::Greater => seq![m[0]] + with_member(m.drop_first(), key, value),
        }
    }
}

/// Keys strictly ascend.
pub open spec fn keys_ascend(m: Seq<(Seq<char>, JsonView)>) -> bool {
    forall|i: int, j: int|
        0 <= i < j < m.len() ==> text_order(#[trigger] m[i].0, #[trigger] m[j].0) == Order::Less
}

/// Reading a member back after setting one.
pub broadcast proof fn law_lookup_with_member(
    m: Seq<(Seq<char>, JsonView)>,
    key: Seq<char>,
    value: JsonView,
    other: Seq<char>,
)
    ensures
        #[trigger] lookup(with_member(m, key, value), other) == (if other == key {
            Some(value)
        } else {
            lookup(m, other)
        }),
    decreases m.len(),
{
    if m.len() == 0 {
        let r = seq![(key, value)];
        assert(r.drop_first() =~= Seq::empty());
    } else {
        crate::text::lemma_text_order_equal(key, m[0].0);
        let rest = m.drop_first();
        match text_order(key, m[0].0) {
            Order::Less => {
                assert((seq![(key, value)] + m).drop_first() =~= m);
            },
            Order::Equal => {
                assert((seq![(key, value)] + rest).drop_first() =~= rest);
            },
            Order::Greater => {
                law_lookup_with_member(rest, key, value, other);
                let tail = with_member(rest, key, value);
                assert((seq![m[0]] + tail).drop_first() =~= tail);
            },
        }
    }
}

/// Setting a member keeps the keys in ascending order, and adds no key but
/// the one set.
pub proof fn lemma_with_member_ascends(
    m: Seq<(Seq<char>, JsonView)>,
    key: Seq<char>,
    value: JsonView,
)
    requires
        keys_ascend(m),
    ensures
        keys_ascend(with_member(m, key, value)),
        forall|i: int|
            0 <= i < with_member(m, key, value).len() ==> (#[trigger] with_member(
                m,
                key,
                value,
            )[i].0 == key || exists|j: int| 0 <= j < m.len() && with_member(m, key, value)[i] == m[j]),
        forall|i: int|
            0 <= i < with_member(m, key, value).len() ==> (#[trigger] with_member(
                m,
                key,
                value,
            )[i] == (key, value) || exists|j: int|
                0 <= j < m.len() && with_member(m, key, value)[i] == m[j]),
    decreases m.len(),
{
    let out = with_member(m, key, value);
    if m.len() == 0 {
    } else {
        let rest = m.drop_first();
        assert(keys_ascend(rest)) by {
            assert forall|i: int, j: int| 0 <= i < j < rest.len() implies text_order(
                #[trigger] rest[i].0,
                #[trigger] rest[j].0,
            ) == Order::Less by {
                assert(rest[i] == m[i + 1] && rest[j] == m[j + 1]);
            }
        }
        crate::text::lemma_text_order_equal(key, m[0].0);
        crate::text::lemma_text_order_flip(key, m[0].0);
        match text_order(key, m[0].0) {
            Order::Less => {
                assert forall|i: int, j: int| 0 <= i < j < out.len() implies text_order(
                    #[trigger] out[i].0,
                    #[trigger] out[j].0,
                ) == Order::Less by {
                    if i == 0 {
                        assert(out[j] == m[j - 1]);
                        if j > 1 {
                            assert(text_order(m[0].0, m[j - 1].0) == Order::Less);
                            crate::text::lemma_text_order_transitive(key, m[0].0, m[j - 1].0);
                        }
                    } else {
                        assert(out[i] == m[i - 1] && out[j] == m[j - 1]);
                    }
                }
                assert forall|i: int| 0 <= i < out.len() implies #[trigger] out[i] == (key, value)
                    || exists|j: int| 0 <= j < m.len() && out[i] == m[j] by {
                    if i > 0 {
                        assert(out[i] == m[i - 1]);
                    }
                }
            },
            Order::Equal => {
                assert forall|i: int, j: int| 0 <= i < j < out.len() implies text_order(
                    #[trigger] out[i].0,
                    #[trigger] out[j].0,
                ) == Order::Less by {
                    assert(out[j] == m[j]);
                    assert(out[i].0 == m[i].0);
                }
                assert forall|i: int| 0 <= i < out.len() implies #[trigger] out[i] == (key, value)
                    || exists|j: int| 0 <= j < m.len() && out[i] == m[j] by {
                    if i > 0 {
                        assert(out[i] == m[i]);
                    }
                }
            },
            Order::Greater => {
                let tail = with_member(rest, key, value);
                lemma_with_member_ascends(rest, key, value);
                assert forall|i: int| 0 <= i < out.len() implies #[trigger] out[i] == (key, value)
                    || exists|j: int| 0 <= j < m.len() && out[i] == m[j] by {
                    if i > 0 {
                        assert(out[i] == tail[i - 1]);
                        if tail[i - 1] != (key, value) {
                            let j = choose|j: int| 0 <= j < rest.len() && tail[i - 1] == rest[j];
                            assert(rest[j] == m[j + 1]);
                        }
                    } else {
                        assert(out[0] == m[0]);
                    }
                }
                assert forall|i: int, j: int| 0 <= i < j < out.len() implies text_order(
                    #[trigger] out[i].0,
                    #[trigger] out[j].0,
                ) == Order::Less by {
                    assert(out[j] == tail[j - 1]);
                    if i == 0 {
                        if tail[j - 1] != (key, value) {
                            let k = choose|k: int| 0 <= k < rest.len() && tail[j - 1] == rest[k];
                            assert(rest[k] == m[k + 1]);
                        }
                    } else {
                        assert(out[i] == tail[i - 1]);
                    }
                }
            },
        }
    }
}

impl JsonMap {
    /// No members.
    pub fn new() -> (r: JsonMap)
        ensures
            r@ == Seq::<(Seq<char>, JsonView)>::empty(),
    {
        let r = JsonMap { entries: Vec::new() };
        proof {
            assert(r@ =~= Seq::<(Seq<char>, JsonView)>::empty());
        }
        r
    }

    /// Number of members.
    pub fn len(&self) -> (r: usize)
        ensures
            r == self@.len(),
    {
        self.entries.len()
    }

    /// Whether there are no members.
    pub fn is_empty(&self) -> (r: bool)
        ensures
            r == (self@.len() == 0),
    {
        self.entries.len() == 0
    }

    /// Value of the member named `key`.
    pub fn get(&self, key: &str) -> (r: Option<&Json>)
        ensures
            match r {
                Some(v) => lookup(self@, key@) == Some(v@) && decreases_to!(*self => *v),
                None => lookup(self@, key@) is None,
            },
    {
        let mut i: usize = 0;
        proof {
            assert(self@.skip(0) =~= self@);
        }
        while i < self.entries.len()
            invariant
                i <= self.entries@.len(),
                lookup(self@, key@) == lookup(self@.skip(i as int), key@),
            decreases self.entries@.len() - i,
        {
            proof {
                assert(self@.skip(i as int)[0] == self@[i as int]);
                assert(self@.skip(i as int).drop_first() =~= self@.skip(i + 1));
            }
            if same_text(self.entries[i].0.as_str(), key) {
                proof {
                    assert(decreases_to!(*self => self.entries));
                    assert(decreases_to!(self.entries => self.entries@));
                    assert(decreases_to!(self.entries@ => self.entries@[i as int]));
                    assert(decreases_to!(self.entries@[i as int] => self.entries@[i as int].1));
                }
                return Some(&self.entries[i].1);
            }
            i = i + 1;
        }
        None
    }

    /// Sets the member named `key` to `value`.
    pub fn insert(&mut self, key: String, value: Json)
        ensures
            final(self)@ == with_member(old(self)@, key@, value@),
    {
        let ghost before = self@;
        let mut i: usize = 0;
        proof {
            assert(before.take(0) + with_member(before.skip(0), key@, value@) =~= with_member(
                before,
                key@,
                value@,
            )) by {
                assert(before.skip(0) =~= before);
            }
        }
        while i < self.entries.len()
            invariant
                self@ == before,
                before == old(self)@,
                i <= self.entries@.len(),
                before.take(i as int) + with_member(before.skip(i as int), key@, value@)
                    == with_member(before, key@, value@),
            decreases self.entries@.len() - i,
        {
            let ghost rest = before.skip(i as int);
            proof {
                assert(rest[0] == before[i as int]);
                assert(rest.drop_first() =~= before.skip(i + 1));
            }
            match compare_text(key.as_str(), self.entries[i].0.as_str()) {
                Order::Less => {
                    self.entries.insert(i, (key, value));
                    proof {
                        assert(self@ =~= before.take(i as int) + (seq![(key@, value@)] + rest));
                    }
                    return;
                },
                Order::Equal => {
                    self.entries.set(i, (key, value));
                    proof {
                        assert(self@ =~= before.take(i as int) + (seq![(key@, value@)]
                            + rest.drop_first()));
                    }
                    return;
                },
                Order::Greater => {
                    proof {
                        let tail = with_member(before.skip(i + 1), key@, value@);
                        assert(before.take(i as int) + (seq![rest[0]] + tail) =~= before.take(i + 1)
                            + tail);
                    }
                },
            }
            i = i + 1;
        }
        self.entries.push((key, value));
        proof {
            assert(self@ =~= before.take(i as int) + seq![(key@, value@)]);
        }
    }
}

impl Clone for JsonNumber {
    fn clone(&self) -> (r: JsonNumber)
        ensures
            r@ == self@,
    {
        match self {
            JsonNumber::PosInt(n) => JsonNumber::PosInt(*n),
            JsonNumber::NegInt(n) => JsonNumber::NegInt(*n),
            JsonNumber::Float(s) => JsonNumber::Float(s.clone()),
        }
    }
}

impl Clone for Json {
    fn clone(&self) -> (r: Json)
        ensures
            r@ == self@,
        decreases self,
    {
        broadcast use group_json_model;

        match self {
            Json::Null => Json::Null,
            Json::Bool(b) => Json::Bool(*b),
            Json::Number(n) => Json::Number(n.clone()),
            Json::Text(s) => Json::Text(s.clone()),
            Json::Array(v) => {
                let mut out: Vec<Json> = Vec::new();
                for i in 0..v.len()
                    invariant
                        out@.len() == i,
                        *self == Json::Array(*v),
                        forall|k: int| 0 <= k < i ==> out@[k]@ == v@[k]@,
                {
                    proof {
                        assert(decreases_to!(*self => self->Array_0));
                        assert(decreases_to!(*v => v@));
                        assert(decreases_to!(v@ => v@[i as int]));
                    }
                    out.push(v[i].clone());
                }
                proof {
                    assert(models(out@) =~= models(v@));
                }
                Json::Array(out)
            },
            Json::Object(m) => {
                proof {
                    assert(decreases_to!(*self => self->Object_0));
                }
                Json::Object(m.clone())
            },
        }
    }
}

impl Clone for JsonMap {
    fn clone(&self) -> (r: JsonMap)
        ensures
            r@ == self@,
        decreases self,
    {
        let mut out: Vec<(String, Json)> = Vec::new();
        for i in 0..self.entries.len()
            invariant
                out@.len() == i,
                forall|k: int|
                    0 <= k < i ==> out@[k].0@ == self.entries@[k].0@ && out@[k].1@
                        == self.entries@[k].1@,
        {
            proof {
                assert(decreases_to!(*self => self.entries));
                assert(decreases_to!(self.entries => self.entries@));
                assert(decreases_to!(self.entries@ => self.entries@[i as int]));
                assert(decreases_to!(self.entries@[i as int] => self.entries@[i as int].1));
            }
            out.push((self.entries[i].0.clone(), self.entries[i].1.clone()));
        }
        let r = JsonMap { entries: out };
        proof {
            assert(r@ =~= self@);
        }
        r
    }
}

/// The text of a number that is zero.
pub open spec fn zero_text(t: Seq<char>) -> bool {
    t == "0.0"@ || t == "-0.0"@
}

/// Two numbers are equal: of one shape and of one value. The two zeros of a
/// non-integer are one value.
pub open spec fn number_same(a: NumberView, b: NumberView) -> bool {
    match (a, b) {
        (NumberView::PosInt(x), NumberView::PosInt(y)) => x == y,
        (NumberView::NegInt(x), NumberView::NegInt(y)) => x == y,
        (NumberView::Float(x), NumberView::Float(y)) => x == y || (zero_text(x) && zero_text(y)),
        _ => false,
    }
}

/// Two values are equal, part by part.
pub open spec fn json_same(a: JsonView, b: JsonView) -> bool
    decreases a,
{
    match (a, b) {
        (JsonView::Null, JsonView::Null) => true,
        (JsonView::Bool(x), JsonView::Bool(y)) => x == y,
        (JsonView::Number(x), JsonView::Number(y)) => number_same(x, y),
        (JsonView::Text(x), JsonView::Text(y)) => x == y,
        (JsonView::Array(x), JsonView::Array(y)) => x.len() == y.len() && forall|i: int|
            0 <= i < x.len() ==> json_same(#[trigger] x[i], y[i]),
        (JsonView::Object(x), JsonView::Object(y)) => x.len() == y.len() && forall|i: int|
            0 <= i < x.len() ==> (#[trigger] x[i]).0 == y[i].0 && json_same(x[i].1, y[i].1),
        _ => false,
    }
}

/// Every value equals itself.
pub proof fn law_json_same_reflexive(a: JsonView)
    ensures
        json_same(a, a),
    decreases a,
{
    match a {
        JsonView::Array(x) => {
            assert forall|i: int| 0 <= i < x.len() implies json_same(#[trigger] x[i], x[i]) by {
                law_json_same_reflexive(x[i]);
            }
        },
        JsonView::Object(x) => {
            assert forall|i: int| 0 <= i < x.len() implies (#[trigger] x[i]).0 == x[i].0
                && json_same(x[i].1, x[i].1) by {
                law_json_same_reflexive(x[i].1);
            }
        },
        _ => {},
    }
}

/// Equality holds both ways or neither.
pub proof fn law_json_same_symmetric(a: JsonView, b: JsonView)
    ensures
        json_same(a, b) == json_same(b, a),
    decreases a,
{
    match (a, b) {
        (JsonView::Array(x), JsonView::Array(y)) => {
            if x.len() == y.len() {
                assert forall|i: int| 0 <= i < x.len() implies json_same(#[trigger] x[i], y[i])
                    == json_same(y[i], x[i]) by {
                    law_json_same_symmetric(x[i], y[i]);
                }
                if json_same(a, b) {
                    assert forall|i: int| 0 <= i < y.len() implies json_same(#[trigger] y[i], x[i]) by {
                        assert(json_same(x[i], y[i]));
                    }
                }
                if json_same(b, a) {
                    assert forall|i: int| 0 <= i < x.len() implies json_same(#[trigger] x[i], y[i]) by {
                        assert(json_same(y[i], x[i]));
                    }
                }
            }
        },
        (JsonView::Object(x), JsonView::Object(y)) => {
            if x.len() == y.len() {
                assert forall|i: int| 0 <= i < x.len() implies json_same(
                    (#[trigger] x[i]).1,
                    y[i].1,
                ) == json_same(y[i].1, x[i].1) by {
                    law_json_same_symmetric(x[i].1, y[i].1);
                }
                if json_same(a, b) {
                    assert forall|i: int| 0 <= i < y.len() implies (#[trigger] y[i]).0 == x[i].0
                        && json_same(y[i].1, x[i].1) by {
                        assert(x[i].0 == y[i].0 && json_same(x[i].1, y[i].1));
                    }
                }
                if json_same(b, a) {
                    assert forall|i: int| 0 <= i < x.len() implies (#[trigger] x[i]).0 == y[i].0
                        && json_same(x[i].1, y[i].1) by {
                        assert(y[i].0 == x[i].0 && json_same(y[i].1, x[i].1));
                    }
                }
            }
        },
        _ => {},
    }
}

impl JsonNumber {
    /// The number of a signed integer.
    pub fn from_i64(n: i64) -> (r: JsonNumber)
        ensures
            r@ == (if n >= 0 {
                NumberView::PosInt(n as u64)
            } else {
                NumberView::NegInt(n)
            }),
    {
        if n >= 0 {
            JsonNumber::PosInt(n as u64)
        } else {
            JsonNumber::NegInt(n)
        }
    }

    /// Whether two numbers are equal.
    pub fn same(&self, other: &JsonNumber) -> (r: bool)
        ensures
            r == number_same(self@, other@),
    {
        match (self, other) {
            (JsonNumber::PosInt(x), JsonNumber::PosInt(y)) => *x == *y,
            (JsonNumber::NegInt(x), JsonNumber::NegInt(y)) => *x == *y,
            (JsonNumber::Float(x), JsonNumber::Float(y)) => {
                same_text(x.as_str(), y.as_str()) || ((same_text(x.as_str(), "0.0") || same_text(
                    x.as_str(),
                    "-0.0",
                )) && (same_text(y.as_str(), "0.0") || same_text(y.as_str(), "-0.0")))
            },
            _ => false,
        }
    }
}

impl Json {
    /// Whether two values are equal.
    pub fn same(&self, other: &Json) -> (r: bool)
        ensures
            r == json_same(self@, other@),
        decreases self,
    {
        broadcast use group_json_model;

        match (self, other) {
            (Json::Null, Json::Null) => true,
            (Json::Bool(x), Json::Bool(y)) => *x == *y,
            (Json::Number(x), Json::Number(y)) => x.same(y),
            (Json::Text(x), Json::Text(y)) => same_text(x.as_str(), y.as_str()),
            (Json::Array(x), Json::Array(y)) => {
                if x.len() != y.len() {
                    return false;
                }
                let mut i: usize = 0;
                while i < x.len()
                    invariant
                        *self == Json::Array(*x),
                        *other == Json::Array(*y),
                        x@.len() == y@.len(),
                        i <= x@.len(),
                        forall|k: int| 0 <= k < i ==> json_same(#[trigger] x@[k]@, y@[k]@),
                    decreases x@.len() - i,
                {
                    proof {
                        assert(decreases_to!(*self => self->Array_0));
                        assert(decreases_to!(*x => x@));
                        assert(decreases_to!(x@ => x@[i as int]));
                    }
                    if !x[i].same(&y[i]) {
                        proof {
                            lemma_array_model(*x);
                            lemma_array_model(*y);
                            assert(!json_same(models(x@)[i as int], models(y@)[i as int]));
                        }
                        return false;
                    }
                    i = i + 1;
                }
                proof {
                    assert forall|k: int| 0 <= k < models(x@).len() implies json_same(
                        #[trigger] models(x@)[k],
                        models(y@)[k],
                    ) by {
                        assert(json_same(x@[k]@, y@[k]@));
                    }
                }
                true
            },
            (Json::Object(x), Json::Object(y)) => {
                proof {
                    assert(decreases_to!(*self => self->Object_0));
                }
                x.same(y)
            },
            _ => false,
        }
    }

    /// Whether this is `null`.
    pub fn is_null(&self) -> (r: bool)
        ensures
            r == (self@ is Null),
    {
        match self {
            Json::Null => true,
            _ => false,
        }
    }

    /// The text of a string.
    pub fn as_str(&self) -> (r: Option<&str>)
        ensures
            match r {
                Some(s) => self@ == JsonView::Text(s@),
                None => !(self@ is Text),
            },
    {
        match self {
            Json::Text(s) => Some(s.as_str()),
            _ => None,
        }
    }

    /// The truth value of a boolean.
    pub fn as_bool(&self) -> (r: Option<bool>)
        ensures
            match r {
                Some(b) => self@ == JsonView::Bool(b),
                None => !(self@ is Bool),
            },
    {
        match self {
            Json::Bool(b) => Some(*b),
            _ => None,
        }
    }

    /// The value of a non-negative integer.
    pub fn as_u64(&self) -> (r: Option<u64>)
        ensures
            r == u64_in(self@),
    {
        match self {
            Json::Number(JsonNumber::PosInt(n)) => Some(*n),
            _ => None,
        }
    }

    /// The elements of an array.
    pub fn as_array(&self) -> (r: Option<&Vec<Json>>)
        ensures
            match r {
                Some(v) => self@ == JsonView::Array(models(v@)) && *self == Json::Array(*v),
                None => !(self@ is Array),
            },
    {
        broadcast use group_json_model;

        match self {
            Json::Array(v) => Some(v),
            _ => None,
        }
    }

    /// The members of an object.
    pub fn as_object(&self) -> (r: Option<&JsonMap>)
        ensures
            match r {
                Some(m) => self@ == JsonView::Object(m@) && *self == Json::Object(*m),
                None => !(self@ is Object),
            },
    {
        broadcast use group_json_model;

        match self {
            Json::Object(m) => Some(m),
            _ => None,
        }
    }

    /// The member of that name, where this is an object that has one.
    pub fn get(&self, key: &str) -> (r: Option<&Json>)
        ensures
            match r {
                Some(v) => member_in(self@, key@) == Some(v@) && decreases_to!(*self => *v),
                None => member_in(self@, key@) is None,
            },
    {
        broadcast use group_json_model;

        match self {
            Json::Object(m) => {
                proof {
                    assert(decreases_to!(*self => self->Object_0));
                }
                m.get(key)
            },
            _ => None,
        }
    }
}

/// The member of that name, where the value is an object that has one.
pub open spec fn member_in(j: JsonView, key: Seq<char>) -> Option<JsonView> {
    match j {
        JsonView::Object(m) => lookup(m, key),
        _ => None,
    }
}

/// The text of a value that is a string.
pub open spec fn text_in(j: Option<JsonView>) -> Option<Seq<char>> {
    match j {
        Some(JsonView::Text(s)) => Some(s),
        _ => None,
    }
}

/// The truth value of a value that is a boolean.
pub open spec fn bool_in(j: Option<JsonView>) -> Option<bool> {
    match j {
        Some(JsonView::Bool(b)) => Some(b),
        _ => None,
    }
}

/// The value of a number that is a non-negative integer.
pub open spec fn u64_in(j: JsonView) -> Option<u64> {
    match j {
        JsonView::Number(NumberView::PosInt(n)) => Some(n),
        _ => None,
    }
}

impl JsonMap {
    /// Whether two objects are equal.
    pub fn same(&self, other: &JsonMap) -> (r: bool)
        ensures
            r == json_same(JsonView::Object(self@), JsonView::Object(other@)),
        decreases self,
    {
        if self.entries.len() != other.entries.len() {
            return false;
        }
        let mut i: usize = 0;
        while i < self.entries.len()
            invariant
                self.entries@.len() == other.entries@.len(),
                i <= self.entries@.len(),
                forall|k: int|
                    0 <= k < i ==> (#[trigger] self@[k]).0 == other@[k].0 && json_same(
                        self@[k].1,
                        other@[k].1,
                    ),
            decreases self.entries@.len() - i,
        {
            proof {
                assert(decreases_to!(*self => self.entries));
                assert(decreases_to!(self.entries => self.entries@));
                assert(decreases_to!(self.entries@ => self.entries@[i as int]));
                assert(decreases_to!(self.entries@[i as int] => self.entries@[i as int].1));
                assert(self@[i as int].0 == self.entries@[i as int].0@);
                assert(other@[i as int].0 == other.entries@[i as int].0@);
            }
            if !same_text(self.entries[i].0.as_str(), other.entries[i].0.as_str()) {
                return false;
            }
            if !self.entries[i].1.same(&other.entries[i].1) {
                return false;
            }
            i = i + 1;
        }
        true
    }
}

impl PartialEq for Json {
    fn eq(&self, other: &Json) -> (r: bool) {
        self.same(other)
    }
}

impl vstd::std_specs::cmp::PartialEqSpecImpl for Json {
    open spec fn obeys_eq_spec() -> bool {
        true
    }

    open spec fn eq_spec(&self, other: &Json) -> bool {
        json_same(self@, other@)
    }
}

/// A string value.
pub fn text_value(s: &str) -> (r: Json)
    ensures
        r@ == JsonView::Text(s@),
{
    Json::Text(s.to_string())
}

/// Where the member that [`lookup`] finds stands.
pub proof fn lemma_lookup_at(m: Seq<(Seq<char>, JsonView)>, key: Seq<char>) -> (j: int)
    ensures
        lookup(m, key) is Some ==> 0 <= j < m.len() && m[j].0 == key && lookup(m, key) == Some(
            m[j].1,
        ),
    decreases m.len(),
{
    if m.len() == 0 || m[0].0 == key {
        0
    } else {
        lemma_lookup_at(m.drop_first(), key) + 1
    }
}

/// A member is smaller than the object that holds it.
pub proof fn lemma_lookup_smaller(m: Seq<(Seq<char>, JsonView)>, key: Seq<char>)
    requires
        lookup(m, key) is Some,
    ensures
        decreases_to!(m => lookup(m, key)->0),
{
    let j = lemma_lookup_at(m, key);
    assert(decreases_to!(m => m[j]));
    assert(decreases_to!(m[j] => m[j].1));
}

} // verus!
