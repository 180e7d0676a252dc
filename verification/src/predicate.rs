//! Shared total predicate profile (`residiuum-predicate-v1`).
//!
//! Evaluation is total and tells an absent field from one that is `null`:
//! in particular an absent field compared with `!=` is false.
use crate::error::{outcome, query_invalid, Error, ErrorView};
use crate::json::{
    bool_in, group_json_model, json_same, law_lookup_with_member, lookup, models, text_in,
    text_value, with_member, Json, JsonMap, JsonView,
};
use crate::json_text::{number_order, order_numbers};
use crate::text::{
    begins_with, cat3, compare_text, contains, decimal, decimal_text, holds_text, join, joined,
    pieces, same_text, split, starts_with, text_order, texts, Order,
};
use vstd::prelude::*;

verus! {

broadcast use group_json_model;

/// Profile identifier.
pub const PREDICATE_PROFILE_V1: &'static str = "residiuum-predicate-v1";

/// Maximum predicate nodes.
pub const MAX_PREDICATE_NODES: usize = 4096;

/// Maximum path segments in one path.
pub const MAX_PATH_SEGMENTS: usize = 64;

/// Canonical path: each segment is a decoded map key.
#[derive(Debug, PartialEq, Eq)]
pub struct Path(pub Vec<String>);

impl View for Path {
    type V = Seq<Seq<char>>;

    open spec fn view(&self) -> Seq<Seq<char>> {
        texts(self.0@)
    }
}

/// A path that a constructor accepts: at least one segment, at most
/// [`MAX_PATH_SEGMENTS`].
pub open spec fn path_fits(path: Seq<Seq<char>>) -> bool {
    0 < path.len() <= MAX_PATH_SEGMENTS
}

/// The path of already-decoded segments, or why they are none.
pub open spec fn path_of_segments(segs: Seq<Seq<char>>) -> Result<Seq<Seq<char>>, ErrorView> {
    if segs.len() == 0 {
        Err(ErrorView::QueryInvalid("empty predicate path"@))
    } else if segs.len() > MAX_PATH_SEGMENTS {
        Err(ErrorView::QueryInvalid("path exceeds 64 segments"@))
    } else {
        Ok(segs)
    }
}

/// The path a dotted text spells, or why it spells none.
pub open spec fn path_of_dotted(s: Seq<char>) -> Result<Seq<Seq<char>>, ErrorView> {
    let segs = pieces(s, '.');
    if s.len() == 0 {
        Err(ErrorView::QueryInvalid("empty predicate path"@))
    } else if exists|i: int| 0 <= i < segs.len() && (#[trigger] segs[i]).len() == 0 {
        Err(ErrorView::QueryInvalid("invalid dotted path `"@ + s + "` (empty segment)"@))
    } else if segs.len() > MAX_PATH_SEGMENTS {
        Err(ErrorView::QueryInvalid("path exceeds 64 segments"@))
    } else {
        Ok(segs)
    }
}

impl Path {
    /// Parses a dotted path (`a.b.c`).
    pub fn parse_dotted(s: &str) -> (r: Result<Path, Error>)
        ensures
            outcome(r) == path_of_dotted(s@),
    {
        if s.is_empty() {
            return Err(query_invalid("empty predicate path"));
        }
        let segs = split(s, '.');
        let mut i: usize = 0;
        while i < segs.len()
            invariant
                texts(segs@) == pieces(s@, '.'),
                s@.len() > 0,
                i <= segs@.len(),
                forall|k: int| 0 <= k < i ==> (#[trigger] texts(segs@)[k]).len() > 0,
            decreases segs@.len() - i,
        {
            if segs[i].as_str().is_empty() {
                proof {
                    assert(texts(segs@)[i as int].len() == 0);
                }
                return Err(
                    Error::QueryInvalid(cat3("invalid dotted path `", s, "` (empty segment)")),
                );
            }
            i = i + 1;
        }
        if segs.len() > MAX_PATH_SEGMENTS {
            return Err(query_invalid("path exceeds 64 segments"));
        }
        Ok(Path(segs))
    }

    /// The path of already-decoded segments.
    pub fn from_segments(segs: Vec<String>) -> (r: Result<Path, Error>)
        ensures
            outcome(r) == path_of_segments(texts(segs@)),
    {
        if segs.len() == 0 {
            return Err(query_invalid("empty predicate path"));
        }
        if segs.len() > MAX_PATH_SEGMENTS {
            return Err(query_invalid("path exceeds 64 segments"));
        }
        Ok(Path(segs))
    }

    /// Dotted form. Segments must not hold a dot for it to parse back.
    pub fn dotted(&self) -> (r: String)
        ensures
            r@ == joined(self@, "."@),
    {
        join(&self.0, ".")
    }
}

impl Clone for Path {
    fn clone(&self) -> (r: Path)
        ensures
            r@ == self@,
    {
        Path(self.0.clone())
    }
}

/// Right- or left-hand operand of a comparison.
#[derive(Debug, PartialEq)]
pub enum Operand {
    /// Document path.
    Path {
        /// Path segments.
        path: Path,
    },
    /// JSON literal.
    Literal {
        /// Literal value.
        value: Json,
    },
    /// Named query parameter.
    Param {
        /// Parameter name without `$`.
        name: String,
    },
}

/// Model of an [`Operand`].
#[verifier::ext_equal]
pub enum OperandView {
    Path { path: Seq<Seq<char>> },
    Literal { value: JsonView },
    Param { name: Seq<char> },
}

impl View for Operand {
    type V = OperandView;

    open spec fn view(&self) -> OperandView {
        match self {
            Operand::Path { path } => OperandView::Path { path: path@ },
            Operand::Literal { value } => OperandView::Literal { value: value@ },
            Operand::Param { name } => OperandView::Param { name: name@ },
        }
    }
}

impl Clone for Operand {
    fn clone(&self) -> (r: Operand)
        ensures
            r@ == self@,
    {
        match self {
            Operand::Path { path } => Operand::Path { path: path.clone() },
            Operand::Literal { value } => Operand::Literal { value: value.clone() },
            Operand::Param { name } => Operand::Param { name: name.clone() },
        }
    }
}

impl Operand {
    /// Path operand.
    pub fn path(p: Path) -> (r: Operand)
        ensures
            r@ == (OperandView::Path { path: p@ }),
    {
        Operand::Path { path: p }
    }

    /// Literal operand.
    pub fn literal(v: Json) -> (r: Operand)
        ensures
            r@ == (OperandView::Literal { value: v@ }),
    {
        Operand::Literal { value: v }
    }

    /// Parameter operand.
    pub fn param(name: &str) -> (r: Operand)
        ensures
            r@ == (OperandView::Param { name: name@ }),
    {
        Operand::Param { name: name.to_string() }
    }
}

/// Comparison operators.
#[derive(Debug, Clone, Copy, PartialEq, Eq, Structural)]
pub enum CompareOp {
    /// `=`
    Eq,
    /// `!=`
    Ne,
    /// `<`
    Lt,
    /// `<=`
    Lte,
    /// `>`
    Gt,
    /// `>=`
    Gte,
}

/// Total boolean tree of the predicate profile.
#[derive(Debug, PartialEq)]
pub enum Predicate {
    /// Constant true.
    True,
    /// Constant false.
    False,
    /// Comparison between two operands.
    Cmp {
        /// Operator.
        cmp: CompareOp,
        /// Left operand.
        left: Operand,
        /// Right operand.
        right: Operand,
    },
    /// Membership in a list of literals.
    In {
        /// Left operand.
        left: Operand,
        /// Literal list.
        list: Vec<Json>,
        /// When true, `not in`.
        negated: bool,
    },
    /// The path exists, `null` counted in.
    Present {
        /// Path.
        path: Path,
    },
    /// The path does not exist.
    Missing {
        /// Path.
        path: Path,
    },
    /// The path is `null`, or with `negated` is there and is not `null`.
    IsNull {
        /// Path.
        path: Path,
        /// When true, `is not null`.
        negated: bool,
    },
    /// The path is a string with that prefix.
    StartsWith {
        /// Path to a string field.
        path: Path,
        /// Required prefix.
        prefix: String,
    },
    /// The path is a string or an array that holds the needle.
    Contains {
        /// Path.
        path: Path,
        /// Substring or array element.
        needle: Json,
    },
    /// Conjunction (empty is true).
    And {
        /// Children.
        args: Vec<Predicate>,
    },
    /// Disjunction (empty is false).
    Or {
        /// Children.
        args: Vec<Predicate>,
    },
    /// Negation.
    Not {
        /// Child.
        arg: Box<Predicate>,
    },
}

/// Model of a [`Predicate`].
#[verifier::ext_equal]
#[allow(inconsistent_fields)]
pub enum PredicateView {
    True,
    False,
    Cmp { cmp: CompareOp, left: OperandView, right: OperandView },
    In { left: OperandView, list: Seq<JsonView>, negated: bool },
    Present { path: Seq<Seq<char>> },
    Missing { path: Seq<Seq<char>> },
    IsNull { path: Seq<Seq<char>>, negated: bool },
    StartsWith { path: Seq<Seq<char>>, prefix: Seq<char> },
    Contains { path: Seq<Seq<char>>, needle: JsonView },
    And { args: Seq<PredicateView> },
    Or { args: Seq<PredicateView> },
    Not { arg: Box<PredicateView> },
}

impl Predicate {
    /// The predicate as its model.
    pub open spec fn model(&self) -> PredicateView
        decreases self,
    {
        match self {
            Predicate::True => PredicateView::True,
            Predicate::False => PredicateView::False,
            Predicate::Cmp { cmp, left, right } => PredicateView::Cmp {
                cmp: *cmp,
                left: left@,
                right: right@,
            },
            Predicate::In { left, list, negated } => PredicateView::In {
                left: left@,
                list: models(list@),
                negated: *negated,
            },
            Predicate::Present { path } => PredicateView::Present { path: path@ },
            Predicate::Missing { path } => PredicateView::Missing { path: path@ },
            Predicate::IsNull { path, negated } => PredicateView::IsNull {
                path: path@,
                negated: *negated,
            },
            Predicate::StartsWith { path, prefix } => PredicateView::StartsWith {
                path: path@,
                prefix: prefix@,
            },
            Predicate::Contains { path, needle } => PredicateView::Contains {
                path: path@,
                needle: needle@,
            },
            Predicate::And { args } => PredicateView::And {
                args: Seq::new(
                    args@.len(),
                    |i: int|
                        if 0 <= i < args@.len() {
                            args@[i].model()
                        } else {
                            PredicateView::True
                        },
                ),
            },
            Predicate::Or { args } => PredicateView::Or {
                args: Seq::new(
                    args@.len(),
                    |i: int|
                        if 0 <= i < args@.len() {
                            args@[i].model()
                        } else {
                            PredicateView::True
                        },
                ),
            },
            Predicate::Not { arg } => PredicateView::Not { arg: Box::new(arg.model()) },
        }
    }
}

impl View for Predicate {
    type V = PredicateView;

    open spec fn view(&self) -> PredicateView {
        self.model()
    }
}

/// The models of a list of predicates.
pub open spec fn predicate_models(v: Seq<Predicate>) -> Seq<PredicateView> {
    Seq::new(v.len(), |i: int| v[i]@)
}

/// A conjunction is modelled child by child.
pub proof fn lemma_and_model(args: Vec<Predicate>)
    ensures
        (Predicate::And { args })@ == (PredicateView::And { args: predicate_models(args@) }),
{
    let p = Predicate::And { args };
    assert(p@->And_args =~= predicate_models(args@));
}

/// A disjunction is modelled child by child.
pub proof fn lemma_or_model(args: Vec<Predicate>)
    ensures
        (Predicate::Or { args })@ == (PredicateView::Or { args: predicate_models(args@) }),
{
    let p = Predicate::Or { args };
    assert(p@->Or_args =~= predicate_models(args@));
}

/// The member `key`, or the message that asks for it.
pub open spec fn required(
    m: Seq<(Seq<char>, JsonView)>,
    key: Seq<char>,
    message: Seq<char>,
) -> Result<JsonView, ErrorView> {
    match lookup(m, key) {
        Some(v) => Ok(v),
        None => Err(ErrorView::QueryInvalid(message)),
    }
}

/// The segments that a JSON array of strings holds.
pub open spec fn segments_in(items: Seq<JsonView>) -> Result<Seq<Seq<char>>, ErrorView>
    decreases items.len(),
{
    if items.len() == 0 {
        Ok(Seq::empty())
    } else {
        match segments_in(items.drop_last()) {
            Err(e) => Err(e),
            Ok(segs) => match items.last() {
                JsonView::Text(s) => Ok(segs.push(s)),
                _ => Err(ErrorView::QueryInvalid("path segment must be string"@)),
            },
        }
    }
}

/// The path that a JSON value holds.
pub open spec fn path_in(v: JsonView) -> Result<Seq<Seq<char>>, ErrorView> {
    match v {
        JsonView::Array(items) => match segments_in(items) {
            Err(e) => Err(e),
            Ok(segs) => path_of_segments(segs),
        },
        _ => Err(ErrorView::QueryInvalid("path must be string array"@)),
    }
}

/// The operand that a JSON value holds.
pub open spec fn operand_in(v: JsonView) -> Result<OperandView, ErrorView> {
    match v {
        JsonView::Object(m) => {
            let kind = text_in(lookup(m, "kind"@));
            if kind == Some("path"@) {
                match required(m, "path"@, "path operand needs path"@) {
                    Err(e) => Err(e),
                    Ok(p) => match path_in(p) {
                        Err(e) => Err(e),
                        Ok(path) => Ok(OperandView::Path { path }),
                    },
                }
            } else if kind == Some("literal"@) {
                match required(m, "value"@, "literal operand needs value"@) {
                    Err(e) => Err(e),
                    Ok(value) => Ok(OperandView::Literal { value }),
                }
            } else if kind == Some("param"@) {
                match text_in(lookup(m, "name"@)) {
                    None => Err(ErrorView::QueryInvalid("param operand needs name"@)),
                    Some(name) => Ok(OperandView::Param { name }),
                }
            } else {
                Err(ErrorView::QueryInvalid("unknown operand kind"@))
            }
        },
        _ => Err(ErrorView::QueryInvalid("operand must be object"@)),
    }
}

/// The comparison operator of that name.
pub open spec fn compare_op_named(op: Seq<char>) -> Option<CompareOp> {
    if op == "eq"@ {
        Some(CompareOp::Eq)
    } else if op == "ne"@ {
        Some(CompareOp::Ne)
    } else if op == "lt"@ {
        Some(CompareOp::Lt)
    } else if op == "lte"@ {
        Some(CompareOp::Lte)
    } else if op == "gt"@ {
        Some(CompareOp::Gt)
    } else if op == "gte"@ {
        Some(CompareOp::Gte)
    } else {
        None
    }
}

/// The comparison that an object with a comparison operator holds.
pub open spec fn comparison_in(
    cmp: CompareOp,
    m: Seq<(Seq<char>, JsonView)>,
) -> Result<PredicateView, ErrorView> {
    match lookup(m, "path"@) {
        Some(p) => match path_in(p) {
            Err(e) => Err(e),
            Ok(path) => {
                let left = OperandView::Path { path };
                match text_in(lookup(m, "param"@)) {
                    Some(name) => Ok(
                        PredicateView::Cmp { cmp, left, right: OperandView::Param { name } },
                    ),
                    None => match lookup(m, "value"@) {
                        Some(value) => Ok(
                            PredicateView::Cmp { cmp, left, right: OperandView::Literal { value } },
                        ),
                        None => Err(
                            ErrorView::QueryInvalid("field compare requires param or value"@),
                        ),
                    },
                }
            },
        },
        None => match required(m, "left"@, "cmp requires path or left"@) {
            Err(e) => Err(e),
            Ok(l) => match operand_in(l) {
                Err(e) => Err(e),
                Ok(left) => match required(m, "right"@, "cmp requires right"@) {
                    Err(e) => Err(e),
                    Ok(r) => match operand_in(r) {
                        Err(e) => Err(e),
                        Ok(right) => Ok(PredicateView::Cmp { cmp, left, right }),
                    },
                },
            },
        },
    }
}

/// The path under `path`, or the message that asks for it.
pub open spec fn path_member(
    m: Seq<(Seq<char>, JsonView)>,
    message: Seq<char>,
) -> Result<Seq<Seq<char>>, ErrorView> {
    match required(m, "path"@, message) {
        Err(e) => Err(e),
        Ok(p) => path_in(p),
    }
}

/// Whether `negated` is set.
pub open spec fn negated_in(m: Seq<(Seq<char>, JsonView)>) -> bool {
    bool_in(lookup(m, "negated"@)) == Some(true)
}

/// The predicate that an object holds whose operator has no predicate below it.
pub open spec fn leaf_in(
    op: Seq<char>,
    m: Seq<(Seq<char>, JsonView)>,
) -> Result<PredicateView, ErrorView> {
    if op == "true"@ {
        Ok(PredicateView::True)
    } else if op == "false"@ {
        Ok(PredicateView::False)
    } else if compare_op_named(op) is Some {
        comparison_in(compare_op_named(op)->0, m)
    } else if op == "present"@ {
        match path_member(m, "present requires path"@) {
            Err(e) => Err(e),
            Ok(path) => Ok(PredicateView::Present { path }),
        }
    } else if op == "missing"@ {
        match path_member(m, "missing requires path"@) {
            Err(e) => Err(e),
            Ok(path) => Ok(PredicateView::Missing { path }),
        }
    } else if op == "is_null"@ {
        match path_member(m, "is_null requires path"@) {
            Err(e) => Err(e),
            Ok(path) => Ok(PredicateView::IsNull { path, negated: negated_in(m) }),
        }
    } else if op == "in"@ {
        match required(m, "left"@, "in requires left"@) {
            Err(e) => Err(e),
            Ok(l) => match operand_in(l) {
                Err(e) => Err(e),
                Ok(left) => match lookup(m, "list"@) {
                    Some(JsonView::Array(list)) => Ok(
                        PredicateView::In { left, list, negated: negated_in(m) },
                    ),
                    _ => Err(ErrorView::QueryInvalid("in requires list"@)),
                },
            },
        }
    } else if op == "starts_with"@ {
        match path_member(m, "starts_with requires path"@) {
            Err(e) => Err(e),
            Ok(path) => match text_in(lookup(m, "prefix"@)) {
                None => Err(ErrorView::QueryInvalid("starts_with requires prefix"@)),
                Some(prefix) => Ok(PredicateView::StartsWith { path, prefix }),
            },
        }
    } else if op == "contains"@ {
        match path_member(m, "contains requires path"@) {
            Err(e) => Err(e),
            Ok(path) => match required(m, "needle"@, "contains requires needle"@) {
                Err(e) => Err(e),
                Ok(needle) => Ok(PredicateView::Contains { path, needle }),
            },
        }
    } else {
        Err(
            ErrorView::QueryInvalid("unsupported predicate op `"@ + op + "` in plan json"@),
        )
    }
}

/// The predicate that a plan's JSON holds, or why it holds none.
pub open spec fn predicate_in(v: JsonView) -> Result<PredicateView, ErrorView>
    decreases v,
{
    match v {
        JsonView::Null => Ok(PredicateView::True),
        JsonView::Object(m) => match text_in(lookup(m, "op"@)) {
            None => Err(ErrorView::QueryInvalid("predicate missing op"@)),
            Some(op) => if op == "and"@ || op == "or"@ {
                match lookup(m, "args"@) {
                    Some(JsonView::Array(items)) => {
                        proof {
                            crate::json::lemma_lookup_smaller(m, "args"@);
                            assert(decreases_to!(v => v->Object_0));
                            let found = lookup(m, "args"@)->0;
                            assert(decreases_to!(found => found->Array_0));
                        }
                        match predicates_in(items) {
                            Err(e) => Err(e),
                            Ok(args) => if op == "and"@ {
                                Ok(PredicateView::And { args })
                            } else {
                                Ok(PredicateView::Or { args })
                            },
                        }
                    },
                    _ => if op == "and"@ {
                        Err(ErrorView::QueryInvalid("and requires args"@))
                    } else {
                        Err(ErrorView::QueryInvalid("or requires args"@))
                    },
                }
            } else if op == "not"@ {
                match lookup(m, "arg"@) {
                    None => Err(ErrorView::QueryInvalid("not requires arg"@)),
                    Some(x) => {
                        proof {
                            crate::json::lemma_lookup_smaller(m, "arg"@);
                            assert(decreases_to!(v => v->Object_0));
                        }
                        match predicate_in(x) {
                            Err(e) => Err(e),
                            Ok(arg) => Ok(PredicateView::Not { arg: Box::new(arg) }),
                        }
                    },
                }
            } else {
                leaf_in(op, m)
            },
        },
        _ => Err(ErrorView::QueryInvalid("predicate plan json must be object or null"@)),
    }
}

/// The predicates that a JSON array holds; the first refusal counts.
pub open spec fn predicates_in(items: Seq<JsonView>) -> Result<Seq<PredicateView>, ErrorView>
    decreases items,
{
    if items.len() == 0 {
        Ok(Seq::empty())
    } else {
        proof {
            assert(decreases_to!(items => items.subrange(0, items.len() - 1)));
            assert(items.drop_last() == items.subrange(0, items.len() - 1));
            assert(decreases_to!(items => items[items.len() - 1]));
        }
        match predicates_in(items.drop_last()) {
            Err(e) => Err(e),
            Ok(done) => match predicate_in(items.last()) {
                Err(e) => Err(e),
                Ok(p) => Ok(done.push(p)),
            },
        }
    }
}

/// Once a list of predicates is refused, a longer one is refused alike.
proof fn lemma_predicates_refused(items: Seq<JsonView>, n: int)
    requires
        0 <= n <= items.len(),
        predicates_in(items.take(n)) is Err,
    ensures
        predicates_in(items) == predicates_in(items.take(n)),
    decreases items.len() - n,
{
    if n == items.len() {
        assert(items.take(n) =~= items);
    } else {
        assert(items.take(n + 1).drop_last() =~= items.take(n));
        lemma_predicates_refused(items, n + 1);
    }
}

/// Once a list of segments is refused, a longer one is refused alike.
proof fn lemma_segments_refused(items: Seq<JsonView>, n: int)
    requires
        0 <= n <= items.len(),
        segments_in(items.take(n)) is Err,
    ensures
        segments_in(items) == segments_in(items.take(n)),
    decreases items.len() - n,
{
    if n == items.len() {
        assert(items.take(n) =~= items);
    } else {
        assert(items.take(n + 1).drop_last() =~= items.take(n));
        lemma_segments_refused(items, n + 1);
    }
}

fn require<'a>(m: &'a JsonMap, key: &str, message: &str) -> (r: Result<&'a Json, Error>)
    ensures
        match r {
            Ok(v) => required(m@, key@, message@) == Ok::<JsonView, ErrorView>(v@)
                && decreases_to!(*m => *v),
            Err(e) => required(m@, key@, message@) == Err::<JsonView, ErrorView>(e@),
        },
{
    match m.get(key) {
        Some(v) => Ok(v),
        None => Err(query_invalid(message)),
    }
}

fn member_text<'a>(m: &'a JsonMap, key: &str) -> (r: Option<&'a str>)
    ensures
        match r {
            Some(s) => text_in(lookup(m@, key@)) == Some(s@),
            None => text_in(lookup(m@, key@)) is None,
        },
{
    match m.get(key) {
        Some(v) => v.as_str(),
        None => None,
    }
}

fn member_flag(m: &JsonMap, key: &str) -> (r: bool)
    ensures
        r == (bool_in(lookup(m@, key@)) == Some(true)),
{
    match m.get(key) {
        Some(v) => match v.as_bool() {
            Some(b) => b,
            None => false,
        },
        None => false,
    }
}

fn path_from_json(v: &Json) -> (r: Result<Path, Error>)
    ensures
        outcome(r) == path_in(v@),
{
    match v.as_array() {
        None => Err(query_invalid("path must be string array")),
        Some(items) => {
            let mut segs: Vec<String> = Vec::new();
            let mut i: usize = 0;
            proof {
                assert(models(items@).take(0) =~= Seq::<JsonView>::empty());
                assert(texts(segs@) =~= Seq::<Seq<char>>::empty());
            }
            while i < items.len()
                invariant
                    v@ == JsonView::Array(models(items@)),
                    i <= items@.len(),
                    segments_in(models(items@).take(i as int)) == Ok::<
                        Seq<Seq<char>>,
                        ErrorView,
                    >(texts(segs@)),
                decreases items@.len() - i,
            {
                let ghost all = models(items@);
                proof {
                    assert(all.take(i + 1).drop_last() =~= all.take(i as int));
                    assert(all.take(i + 1).last() == items@[i as int]@);
                }
                match items[i].as_str() {
                    Some(s) => {
                        let ghost before = texts(segs@);
                        segs.push(s.to_string());
                        proof {
                            assert(texts(segs@) =~= before.push(s@));
                        }
                    },
                    None => {
                        proof {
                            lemma_segments_refused(all, i + 1);
                        }
                        return Err(query_invalid("path segment must be string"));
                    },
                }
                i = i + 1;
            }
            proof {
                assert(models(items@).take(items@.len() as int) =~= models(items@));
            }
            Path::from_segments(segs)
        },
    }
}

fn operand_from_json(v: &Json) -> (r: Result<Operand, Error>)
    ensures
        outcome(r) == operand_in(v@),
{
    match v.as_object() {
        None => Err(query_invalid("operand must be object")),
        Some(m) => match member_text(m, "kind") {
            Some(kind) => {
                if same_text(kind, "path") {
                    let p = require(m, "path", "path operand needs path")?;
                    let path = path_from_json(p)?;
                    Ok(Operand::Path { path })
                } else if same_text(kind, "literal") {
                    let value = require(m, "value", "literal operand needs value")?;
                    Ok(Operand::Literal { value: value.clone() })
                } else if same_text(kind, "param") {
                    match member_text(m, "name") {
                        Some(name) => Ok(Operand::Param { name: name.to_string() }),
                        None => Err(query_invalid("param operand needs name")),
                    }
                } else {
                    Err(query_invalid("unknown operand kind"))
                }
            },
            None => Err(query_invalid("unknown operand kind")),
        },
    }
}

fn compare_op_from(op: &str) -> (r: Option<CompareOp>)
    ensures
        r == compare_op_named(op@),
{
    if same_text(op, "eq") {
        Some(CompareOp::Eq)
    } else if same_text(op, "ne") {
        Some(CompareOp::Ne)
    } else if same_text(op, "lt") {
        Some(CompareOp::Lt)
    } else if same_text(op, "lte") {
        Some(CompareOp::Lte)
    } else if same_text(op, "gt") {
        Some(CompareOp::Gt)
    } else if same_text(op, "gte") {
        Some(CompareOp::Gte)
    } else {
        None
    }
}

fn comparison_from_json(cmp: CompareOp, m: &JsonMap) -> (r: Result<Predicate, Error>)
    ensures
        outcome(r) == comparison_in(cmp, m@),
{
    match m.get("path") {
        Some(p) => {
            let path = path_from_json(p)?;
            let left = Operand::Path { path };
            match member_text(m, "param") {
                Some(name) => Ok(
                    Predicate::Cmp { cmp, left, right: Operand::Param { name: name.to_string() } },
                ),
                None => match m.get("value") {
                    Some(value) => Ok(
                        Predicate::Cmp {
                            cmp,
                            left,
                            right: Operand::Literal { value: value.clone() },
                        },
                    ),
                    None => Err(query_invalid("field compare requires param or value")),
                },
            }
        },
        None => {
            let l = require(m, "left", "cmp requires path or left")?;
            let left = operand_from_json(l)?;
            let r = require(m, "right", "cmp requires right")?;
            let right = operand_from_json(r)?;
            Ok(Predicate::Cmp { cmp, left, right })
        },
    }
}

fn path_under(m: &JsonMap, message: &str) -> (r: Result<Path, Error>)
    ensures
        outcome(r) == path_member(m@, message@),
{
    let p = require(m, "path", message)?;
    path_from_json(p)
}

/// Copies a list of values.
pub(crate) fn clone_values(v: &Vec<Json>) -> (r: Vec<Json>)
    ensures
        models(r@) == models(v@),
{
    let mut out: Vec<Json> = Vec::new();
    for i in 0..v.len()
        invariant
            out@.len() == i,
            forall|k: int| 0 <= k < i ==> out@[k]@ == v@[k]@,
    {
        out.push(v[i].clone());
    }
    proof {
        assert(models(out@) =~= models(v@));
    }
    out
}

fn leaf_from_json(op: &str, m: &JsonMap) -> (r: Result<Predicate, Error>)
    ensures
        outcome(r) == leaf_in(op@, m@),
{
    if same_text(op, "true") {
        return Ok(Predicate::True);
    }
    if same_text(op, "false") {
        return Ok(Predicate::False);
    }
    match compare_op_from(op) {
        Some(named) => {
            return comparison_from_json(named, m);
        },
        None => {},
    }
    if same_text(op, "present") {
        let path = path_under(m, "present requires path")?;
        Ok(Predicate::Present { path })
    } else if same_text(op, "missing") {
        let path = path_under(m, "missing requires path")?;
        Ok(Predicate::Missing { path })
    } else if same_text(op, "is_null") {
        let path = path_under(m, "is_null requires path")?;
        Ok(Predicate::IsNull { path, negated: member_flag(m, "negated") })
    } else if same_text(op, "in") {
        let l = require(m, "left", "in requires left")?;
        let left = operand_from_json(l)?;
        match m.get("list") {
            Some(Json::Array(list)) => Ok(
                Predicate::In {
                    left,
                    list: clone_values(list),
                    negated: member_flag(m, "negated"),
                },
            ),
            _ => Err(query_invalid("in requires list")),
        }
    } else if same_text(op, "starts_with") {
        let path = path_under(m, "starts_with requires path")?;
        match member_text(m, "prefix") {
            Some(prefix) => Ok(Predicate::StartsWith { path, prefix: prefix.to_string() }),
            None => Err(query_invalid("starts_with requires prefix")),
        }
    } else if same_text(op, "contains") {
        let path = path_under(m, "contains requires path")?;
        let needle = require(m, "needle", "contains requires needle")?;
        Ok(Predicate::Contains { path, needle: needle.clone() })
    } else {
        Err(Error::QueryInvalid(cat3("unsupported predicate op `", op, "` in plan json")))
    }
}

impl Predicate {
    /// Parses the plan shape of a predicate:
    /// `{ "op": "eq", "path": ["status"], "param": "status" }`, with `"value"`
    /// in place of `"param"`, or with full `"left"` and `"right"` operands.
    /// `null` is the constant true.
    pub fn from_plan_json(v: &Json) -> (r: Result<Predicate, Error>)
        ensures
            outcome(r) == predicate_in(v@),
        decreases v,
    {
        if v.is_null() {
            return Ok(Predicate::True);
        }
        match v {
            Json::Object(m) => {
                proof {
                    assert(decreases_to!(*v => v->Object_0));
                }
                match member_text(m, "op") {
                    None => Err(query_invalid("predicate missing op")),
                    Some(op) => {
                        if same_text(op, "and") {
                            match m.get("args") {
                                Some(Json::Array(items)) => {
                                    proof {
                                        let found = Json::Array(*items);
                                        assert(decreases_to!(found => found->Array_0));
                                    }
                                    let args = Predicate::list_from_plan_json(items)?;
                                    proof {
                                        lemma_and_model(args);
                                    }
                                    Ok(Predicate::And { args })
                                },
                                _ => Err(query_invalid("and requires args")),
                            }
                        } else if same_text(op, "or") {
                            match m.get("args") {
                                Some(Json::Array(items)) => {
                                    proof {
                                        let found = Json::Array(*items);
                                        assert(decreases_to!(found => found->Array_0));
                                    }
                                    let args = Predicate::list_from_plan_json(items)?;
                                    proof {
                                        lemma_or_model(args);
                                    }
                                    Ok(Predicate::Or { args })
                                },
                                _ => Err(query_invalid("or requires args")),
                            }
                        } else if same_text(op, "not") {
                            match m.get("arg") {
                                Some(x) => {
                                    let arg = Predicate::from_plan_json(x)?;
                                    Ok(Predicate::Not { arg: Box::new(arg) })
                                },
                                None => Err(query_invalid("not requires arg")),
                            }
                        } else {
                            leaf_from_json(op, m)
                        }
                    },
                }
            },
            _ => Err(query_invalid("predicate plan json must be object or null")),
        }
    }

    fn list_from_plan_json(items: &Vec<Json>) -> (r: Result<Vec<Predicate>, Error>)
        ensures
            match r {
                Ok(v) => predicates_in(models(items@)) == Ok::<Seq<PredicateView>, ErrorView>(
                    predicate_models(v@),
                ),
                Err(e) => predicates_in(models(items@)) == Err::<Seq<PredicateView>, ErrorView>(e@),
            },
        decreases items,
    {
        let mut out: Vec<Predicate> = Vec::new();
        let mut i: usize = 0;
        let ghost all = models(items@);
        proof {
            assert(all.take(0) =~= Seq::<JsonView>::empty());
            assert(predicate_models(out@) =~= Seq::<PredicateView>::empty());
        }
        while i < items.len()
            invariant
                all == models(items@),
                i <= items@.len(),
                predicates_in(all.take(i as int)) == Ok::<Seq<PredicateView>, ErrorView>(
                    predicate_models(out@),
                ),
            decreases items@.len() - i,
        {
            proof {
                assert(all.take(i + 1).drop_last() =~= all.take(i as int));
                assert(all.take(i + 1).last() == items@[i as int]@);
                assert(decreases_to!(*items => items@));
                assert(decreases_to!(items@ => items@[i as int]));
            }
            match Predicate::from_plan_json(&items[i]) {
                Ok(p) => {
                    let ghost before = predicate_models(out@);
                    out.push(p);
                    proof {
                        assert(predicate_models(out@) =~= before.push(p@));
                    }
                },
                Err(e) => {
                    proof {
                        lemma_predicates_refused(all, i + 1);
                    }
                    return Err(e);
                },
            }
            i = i + 1;
        }
        proof {
            assert(all.take(items@.len() as int) =~= all);
        }
        Ok(out)
    }
}

/// The members of an object with nothing but its operator.
pub open spec fn tagged(op: Seq<char>) -> Seq<(Seq<char>, JsonView)> {
    with_member(Seq::empty(), "op"@, JsonView::Text(op))
}

/// The name of a comparison operator.
pub open spec fn compare_op_name(op: CompareOp) -> Seq<char> {
    match op {
        CompareOp::Eq => "eq"@,
        CompareOp::Ne => "ne"@,
        CompareOp::Lt => "lt"@,
        CompareOp::Lte => "lte"@,
        CompareOp::Gt => "gt"@,
        CompareOp::Gte => "gte"@,
    }
}

/// A path as a JSON array of strings.
pub open spec fn path_json(path: Seq<Seq<char>>) -> JsonView {
    JsonView::Array(Seq::new(path.len(), |i: int| JsonView::Text(path[i])))
}

/// An operand as a JSON object.
pub open spec fn operand_json(op: OperandView) -> JsonView {
    match op {
        OperandView::Path { path } => JsonView::Object(
            with_member(
                with_member(Seq::empty(), "kind"@, JsonView::Text("path"@)),
                "path"@,
                path_json(path),
            ),
        ),
        OperandView::Literal { value } => JsonView::Object(
            with_member(
                with_member(Seq::empty(), "kind"@, JsonView::Text("literal"@)),
                "value"@,
                value,
            ),
        ),
        OperandView::Param { name } => JsonView::Object(
            with_member(
                with_member(Seq::empty(), "kind"@, JsonView::Text("param"@)),
                "name"@,
                JsonView::Text(name),
            ),
        ),
    }
}

/// The canonical JSON of a predicate.
pub open spec fn canonical(p: PredicateView) -> JsonView
    decreases p,
{
    match p {
        PredicateView::True => JsonView::Object(tagged("true"@)),
        PredicateView::False => JsonView::Object(tagged("false"@)),
        PredicateView::Cmp { cmp, left, right } => JsonView::Object(
            with_member(
                with_member(tagged(compare_op_name(cmp)), "left"@, operand_json(left)),
                "right"@,
                operand_json(right),
            ),
        ),
        PredicateView::In { left, list, negated } => JsonView::Object(
            with_member(
                with_member(
                    with_member(tagged("in"@), "left"@, operand_json(left)),
                    "list"@,
                    JsonView::Array(list),
                ),
                "negated"@,
                JsonView::Bool(negated),
            ),
        ),
        PredicateView::Present { path } => JsonView::Object(
            with_member(tagged("present"@), "path"@, path_json(path)),
        ),
        PredicateView::Missing { path } => JsonView::Object(
            with_member(tagged("missing"@), "path"@, path_json(path)),
        ),
        PredicateView::IsNull { path, negated } => JsonView::Object(
            with_member(
                with_member(tagged("is_null"@), "path"@, path_json(path)),
                "negated"@,
                JsonView::Bool(negated),
            ),
        ),
        PredicateView::StartsWith { path, prefix } => JsonView::Object(
            with_member(
                with_member(tagged("starts_with"@), "path"@, path_json(path)),
                "prefix"@,
                JsonView::Text(prefix),
            ),
        ),
        PredicateView::Contains { path, needle } => JsonView::Object(
            with_member(
                with_member(tagged("contains"@), "path"@, path_json(path)),
                "needle"@,
                needle,
            ),
        ),
        PredicateView::And { args } => JsonView::Object(
            with_member(tagged("and"@), "args"@, JsonView::Array(canonicals(args))),
        ),
        PredicateView::Or { args } => JsonView::Object(
            with_member(tagged("or"@), "args"@, JsonView::Array(canonicals(args))),
        ),
        PredicateView::Not { arg } => JsonView::Object(
            with_member(tagged("not"@), "arg"@, canonical(*arg)),
        ),
    }
}

/// The canonical JSON of each predicate of a list.
pub open spec fn canonicals(args: Seq<PredicateView>) -> Seq<JsonView>
    decreases args,
{
    Seq::new(
        args.len(),
        |i: int|
            if 0 <= i < args.len() {
                canonical(args[i])
            } else {
                JsonView::Null
            },
    )
}

/// Every path in an operand is one that a constructor accepts.
pub open spec fn operand_fits(op: OperandView) -> bool {
    match op {
        OperandView::Path { path } => path_fits(path),
        _ => true,
    }
}

/// Every path in a predicate is one that a constructor accepts.
pub open spec fn predicate_fits(p: PredicateView) -> bool
    decreases p,
{
    match p {
        PredicateView::True => true,
        PredicateView::False => true,
        PredicateView::Cmp { left, right, .. } => operand_fits(left) && operand_fits(right),
        PredicateView::In { left, .. } => operand_fits(left),
        PredicateView::Present { path } => path_fits(path),
        PredicateView::Missing { path } => path_fits(path),
        PredicateView::IsNull { path, .. } => path_fits(path),
        PredicateView::StartsWith { path, .. } => path_fits(path),
        PredicateView::Contains { path, .. } => path_fits(path),
        PredicateView::And { args } => forall|i: int|
            0 <= i < args.len() ==> predicate_fits(#[trigger] args[i]),
        PredicateView::Or { args } => forall|i: int|
            0 <= i < args.len() ==> predicate_fits(#[trigger] args[i]),
        PredicateView::Not { arg } => predicate_fits(*arg),
    }
}

/// No two names of this profile's JSON shape are the same.
proof fn lemma_names_differ()
    ensures
        "and"@ != "contains"@,
        "and"@ != "eq"@,
        "and"@ != "false"@,
        "and"@ != "gt"@,
        "and"@ != "gte"@,
        "and"@ != "in"@,
        "and"@ != "is_null"@,
        "and"@ != "lt"@,
        "and"@ != "lte"@,
        "and"@ != "missing"@,
        "and"@ != "ne"@,
        "and"@ != "not"@,
        "and"@ != "or"@,
        "and"@ != "present"@,
        "and"@ != "starts_with"@,
        "and"@ != "true"@,
        "arg"@ != "kind"@,
        "arg"@ != "name"@,
        "arg"@ != "param"@,
        "arg"@ != "value"@,
        "args"@ != "arg"@,
        "args"@ != "kind"@,
        "args"@ != "name"@,
        "args"@ != "param"@,
        "args"@ != "value"@,
        "eq"@ != "contains"@,
        "eq"@ != "gt"@,
        "eq"@ != "gte"@,
        "eq"@ != "in"@,
        "eq"@ != "is_null"@,
        "eq"@ != "lt"@,
        "eq"@ != "lte"@,
        "eq"@ != "missing"@,
        "eq"@ != "ne"@,
        "eq"@ != "present"@,
        "eq"@ != "starts_with"@,
        "false"@ != "contains"@,
        "false"@ != "eq"@,
        "false"@ != "gt"@,
        "false"@ != "gte"@,
        "false"@ != "in"@,
        "false"@ != "is_null"@,
        "false"@ != "lt"@,
        "false"@ != "lte"@,
        "false"@ != "missing"@,
        "false"@ != "ne"@,
        "false"@ != "present"@,
        "false"@ != "starts_with"@,
        "gt"@ != "contains"@,
        "gt"@ != "gte"@,
        "gt"@ != "in"@,
        "gt"@ != "is_null"@,
        "gt"@ != "missing"@,
        "gt"@ != "present"@,
        "gt"@ != "starts_with"@,
        "gte"@ != "contains"@,
        "gte"@ != "in"@,
        "gte"@ != "is_null"@,
        "gte"@ != "missing"@,
        "gte"@ != "present"@,
        "gte"@ != "starts_with"@,
        "in"@ != "contains"@,
        "in"@ != "starts_with"@,
        "is_null"@ != "contains"@,
        "is_null"@ != "in"@,
        "is_null"@ != "starts_with"@,
        "kind"@ != "name"@,
        "kind"@ != "param"@,
        "kind"@ != "value"@,
        "left"@ != "arg"@,
        "left"@ != "args"@,
        "left"@ != "kind"@,
        "left"@ != "list"@,
        "left"@ != "name"@,
        "left"@ != "needle"@,
        "left"@ != "negated"@,
        "left"@ != "param"@,
        "left"@ != "path"@,
        "left"@ != "prefix"@,
        "left"@ != "right"@,
        "left"@ != "value"@,
        "list"@ != "arg"@,
        "list"@ != "args"@,
        "list"@ != "kind"@,
        "list"@ != "name"@,
        "list"@ != "needle"@,
        "list"@ != "negated"@,
        "list"@ != "param"@,
        "list"@ != "path"@,
        "list"@ != "prefix"@,
        "list"@ != "value"@,
        "literal"@ != "param"@,
        "lt"@ != "contains"@,
        "lt"@ != "gt"@,
        "lt"@ != "gte"@,
        "lt"@ != "in"@,
        "lt"@ != "is_null"@,
        "lt"@ != "lte"@,
        "lt"@ != "missing"@,
        "lt"@ != "present"@,
        "lt"@ != "starts_with"@,
        "lte"@ != "contains"@,
        "lte"@ != "gt"@,
        "lte"@ != "gte"@,
        "lte"@ != "in"@,
        "lte"@ != "is_null"@,
        "lte"@ != "missing"@,
        "lte"@ != "present"@,
        "lte"@ != "starts_with"@,
        "missing"@ != "contains"@,
        "missing"@ != "in"@,
        "missing"@ != "is_null"@,
        "missing"@ != "starts_with"@,
        "name"@ != "param"@,
        "ne"@ != "contains"@,
        "ne"@ != "gt"@,
        "ne"@ != "gte"@,
        "ne"@ != "in"@,
        "ne"@ != "is_null"@,
        "ne"@ != "lt"@,
        "ne"@ != "lte"@,
        "ne"@ != "missing"@,
        "ne"@ != "present"@,
        "ne"@ != "starts_with"@,
        "needle"@ != "arg"@,
        "needle"@ != "args"@,
        "needle"@ != "kind"@,
        "needle"@ != "name"@,
        "needle"@ != "param"@,
        "needle"@ != "value"@,
        "negated"@ != "arg"@,
        "negated"@ != "args"@,
        "negated"@ != "kind"@,
        "negated"@ != "name"@,
        "negated"@ != "needle"@,
        "negated"@ != "param"@,
        "negated"@ != "path"@,
        "negated"@ != "prefix"@,
        "negated"@ != "value"@,
        "not"@ != "contains"@,
        "not"@ != "eq"@,
        "not"@ != "false"@,
        "not"@ != "gt"@,
        "not"@ != "gte"@,
        "not"@ != "in"@,
        "not"@ != "is_null"@,
        "not"@ != "lt"@,
        "not"@ != "lte"@,
        "not"@ != "missing"@,
        "not"@ != "ne"@,
        "not"@ != "present"@,
        "not"@ != "starts_with"@,
        "not"@ != "true"@,
        "op"@ != "arg"@,
        "op"@ != "args"@,
        "op"@ != "kind"@,
        "op"@ != "left"@,
        "op"@ != "list"@,
        "op"@ != "name"@,
        "op"@ != "needle"@,
        "op"@ != "negated"@,
        "op"@ != "param"@,
        "op"@ != "path"@,
        "op"@ != "prefix"@,
        "op"@ != "right"@,
        "op"@ != "value"@,
        "or"@ != "contains"@,
        "or"@ != "eq"@,
        "or"@ != "false"@,
        "or"@ != "gt"@,
        "or"@ != "gte"@,
        "or"@ != "in"@,
        "or"@ != "is_null"@,
        "or"@ != "lt"@,
        "or"@ != "lte"@,
        "or"@ != "missing"@,
        "or"@ != "ne"@,
        "or"@ != "not"@,
        "or"@ != "present"@,
        "or"@ != "starts_with"@,
        "or"@ != "true"@,
        "path"@ != "arg"@,
        "path"@ != "args"@,
        "path"@ != "kind"@,
        "path"@ != "literal"@,
        "path"@ != "name"@,
        "path"@ != "needle"@,
        "path"@ != "param"@,
        "path"@ != "prefix"@,
        "path"@ != "value"@,
        "prefix"@ != "arg"@,
        "prefix"@ != "args"@,
        "prefix"@ != "kind"@,
        "prefix"@ != "name"@,
        "prefix"@ != "needle"@,
        "prefix"@ != "param"@,
        "prefix"@ != "value"@,
        "present"@ != "contains"@,
        "present"@ != "in"@,
        "present"@ != "is_null"@,
        "present"@ != "missing"@,
        "present"@ != "starts_with"@,
        "right"@ != "arg"@,
        "right"@ != "args"@,
        "right"@ != "kind"@,
        "right"@ != "list"@,
        "right"@ != "name"@,
        "right"@ != "needle"@,
        "right"@ != "negated"@,
        "right"@ != "param"@,
        "right"@ != "path"@,
        "right"@ != "prefix"@,
        "right"@ != "value"@,
        "starts_with"@ != "contains"@,
        "true"@ != "contains"@,
        "true"@ != "eq"@,
        "true"@ != "false"@,
        "true"@ != "gt"@,
        "true"@ != "gte"@,
        "true"@ != "in"@,
        "true"@ != "is_null"@,
        "true"@ != "lt"@,
        "true"@ != "lte"@,
        "true"@ != "missing"@,
        "true"@ != "ne"@,
        "true"@ != "present"@,
        "true"@ != "starts_with"@,
        "value"@ != "name"@,
        "value"@ != "param"@,
{
    reveal_strlit("and");
    assert("and"@.len() == 3);
    reveal_strlit("arg");
    assert("arg"@.len() == 3);
    reveal_strlit("args");
    assert("args"@.len() == 4);
    reveal_strlit("contains");
    assert("contains"@.len() == 8);
    reveal_strlit("eq");
    assert("eq"@.len() == 2);
    reveal_strlit("false");
    assert("false"@.len() == 5);
    reveal_strlit("gt");
    assert("gt"@.len() == 2);
    reveal_strlit("gte");
    assert("gte"@.len() == 3);
    reveal_strlit("in");
    assert("in"@.len() == 2);
    reveal_strlit("is_null");
    assert("is_null"@.len() == 7);
    reveal_strlit("kind");
    assert("kind"@.len() == 4);
    reveal_strlit("left");
    assert("left"@.len() == 4);
    reveal_strlit("list");
    assert("list"@.len() == 4);
    reveal_strlit("literal");
    assert("literal"@.len() == 7);
    reveal_strlit("lt");
    assert("lt"@.len() == 2);
    reveal_strlit("lte");
    assert("lte"@.len() == 3);
    reveal_strlit("missing");
    assert("missing"@.len() == 7);
    reveal_strlit("name");
    assert("name"@.len() == 4);
    reveal_strlit("ne");
    assert("ne"@.len() == 2);
    reveal_strlit("needle");
    assert("needle"@.len() == 6);
    reveal_strlit("negated");
    assert("negated"@.len() == 7);
    reveal_strlit("not");
    assert("not"@.len() == 3);
    reveal_strlit("op");
    assert("op"@.len() == 2);
    reveal_strlit("or");
    assert("or"@.len() == 2);
    reveal_strlit("param");
    assert("param"@.len() == 5);
    reveal_strlit("path");
    assert("path"@.len() == 4);
    reveal_strlit("prefix");
    assert("prefix"@.len() == 6);
    reveal_strlit("present");
    assert("present"@.len() == 7);
    reveal_strlit("right");
    assert("right"@.len() == 5);
    reveal_strlit("starts_with");
    assert("starts_with"@.len() == 11);
    reveal_strlit("true");
    assert("true"@.len() == 4);
    reveal_strlit("value");
    assert("value"@.len() == 5);
    assert("and"@[0] != "gte"@[0]);
    assert("and"@[0] != "lte"@[0]);
    assert("and"@[0] != "not"@[0]);
    assert("args"@[0] != "kind"@[0]);
    assert("args"@[0] != "name"@[0]);
    assert("eq"@[0] != "gt"@[0]);
    assert("eq"@[0] != "in"@[0]);
    assert("eq"@[0] != "lt"@[0]);
    assert("eq"@[0] != "ne"@[0]);
    assert("gt"@[0] != "in"@[0]);
    assert("kind"@[0] != "name"@[0]);
    assert("left"@[0] != "args"@[0]);
    assert("left"@[0] != "kind"@[0]);
    assert("left"@[1] != "list"@[1]);
    assert("left"@[0] != "name"@[0]);
    assert("left"@[0] != "path"@[0]);
    assert("list"@[0] != "args"@[0]);
    assert("list"@[0] != "kind"@[0]);
    assert("list"@[0] != "name"@[0]);
    assert("list"@[0] != "path"@[0]);
    assert("lt"@[0] != "gt"@[0]);
    assert("lt"@[0] != "in"@[0]);
    assert("lte"@[0] != "gte"@[0]);
    assert("missing"@[0] != "is_null"@[0]);
    assert("ne"@[0] != "gt"@[0]);
    assert("ne"@[0] != "in"@[0]);
    assert("ne"@[0] != "lt"@[0]);
    assert("not"@[0] != "gte"@[0]);
    assert("not"@[0] != "lte"@[0]);
    assert("or"@[0] != "eq"@[0]);
    assert("or"@[0] != "gt"@[0]);
    assert("or"@[0] != "in"@[0]);
    assert("or"@[0] != "lt"@[0]);
    assert("or"@[0] != "ne"@[0]);
    assert("path"@[0] != "args"@[0]);
    assert("path"@[0] != "kind"@[0]);
    assert("path"@[0] != "name"@[0]);
    assert("prefix"@[0] != "needle"@[0]);
    assert("present"@[0] != "is_null"@[0]);
    assert("present"@[0] != "missing"@[0]);
    assert("right"@[0] != "param"@[0]);
    assert("right"@[0] != "value"@[0]);
    assert("value"@[0] != "param"@[0]);
}

/// The segments written for a path read back as they were.
proof fn lemma_segments_read_back(path: Seq<Seq<char>>)
    ensures
        segments_in(path_json(path)->Array_0) == Ok::<Seq<Seq<char>>, ErrorView>(path),
    decreases path.len(),
{
    let items = path_json(path)->Array_0;
    if path.len() > 0 {
        lemma_segments_read_back(path.drop_last());
        assert(items.drop_last() =~= path_json(path.drop_last())->Array_0);
        assert(path.drop_last().push(path.last()) =~= path);
    } else {
        assert(path =~= Seq::empty());
    }
}

/// A path written as JSON reads back as it was.
proof fn lemma_path_reads_back(path: Seq<Seq<char>>)
    requires
        path_fits(path),
    ensures
        path_in(path_json(path)) == Ok::<Seq<Seq<char>>, ErrorView>(path),
{
    lemma_segments_read_back(path);
}

/// An operand written as JSON reads back as it was.
proof fn lemma_operand_reads_back(op: OperandView)
    requires
        operand_fits(op),
    ensures
        operand_in(operand_json(op)) == Ok::<OperandView, ErrorView>(op),
{
    broadcast use law_lookup_with_member;

    lemma_names_differ();
    match op {
        OperandView::Path { path } => {
            lemma_path_reads_back(path);
        },
        _ => {},
    }
}

/// The canonical JSON of every predicate whose paths a constructor accepts
/// parses back to that predicate.
pub proof fn law_canonical_round_trip(p: PredicateView)
    requires
        predicate_fits(p),
    ensures
        predicate_in(canonical(p)) == Ok::<PredicateView, ErrorView>(p),
    decreases p,
{
    broadcast use law_lookup_with_member;

    lemma_names_differ();
    match p {
        PredicateView::True => {},
        PredicateView::False => {},
        PredicateView::Cmp { cmp, left, right } => {
            lemma_operand_reads_back(left);
            lemma_operand_reads_back(right);
        },
        PredicateView::In { left, list, negated } => {
            lemma_operand_reads_back(left);
        },
        PredicateView::Present { path } => {
            lemma_path_reads_back(path);
        },
        PredicateView::Missing { path } => {
            lemma_path_reads_back(path);
        },
        PredicateView::IsNull { path, negated } => {
            lemma_path_reads_back(path);
        },
        PredicateView::StartsWith { path, prefix } => {
            lemma_path_reads_back(path);
        },
        PredicateView::Contains { path, needle } => {
            lemma_path_reads_back(path);
        },
        PredicateView::And { args } => {
            lemma_list_reads_back(args);
        },
        PredicateView::Or { args } => {
            lemma_list_reads_back(args);
        },
        PredicateView::Not { arg } => {
            law_canonical_round_trip(*arg);
        },
    }
}

/// The canonical JSON of a list of predicates parses back to that list.
proof fn lemma_list_reads_back(args: Seq<PredicateView>)
    requires
        forall|i: int| 0 <= i < args.len() ==> predicate_fits(#[trigger] args[i]),
    ensures
        predicates_in(canonicals(args)) == Ok::<Seq<PredicateView>, ErrorView>(args),
    decreases args,
{
    if args.len() > 0 {
        let init = args.drop_last();
        assert(decreases_to!(args => args.subrange(0, args.len() - 1)));
        assert(init == args.subrange(0, args.len() - 1));
        assert(decreases_to!(args => args[args.len() - 1]));
        lemma_list_reads_back(init);
        law_canonical_round_trip(args.last());
        assert(canonicals(args).drop_last() =~= canonicals(init));
        assert(init.push(args.last()) =~= args);
    } else {
        assert(args =~= Seq::empty());
    }
}

fn tagged_map(op: &str) -> (r: JsonMap)
    ensures
        r@ == tagged(op@),
{
    let mut m = JsonMap::new();
    m.insert("op".to_string(), text_value(op));
    m
}

fn cmp_str(c: CompareOp) -> (r: &'static str)
    ensures
        r@ == compare_op_name(c),
{
    match c {
        CompareOp::Eq => "eq",
        CompareOp::Ne => "ne",
        CompareOp::Lt => "lt",
        CompareOp::Lte => "lte",
        CompareOp::Gt => "gt",
        CompareOp::Gte => "gte",
    }
}

fn path_canonical(path: &Path) -> (r: Json)
    ensures
        r@ == path_json(path@),
{
    let mut out: Vec<Json> = Vec::new();
    for i in 0..path.0.len()
        invariant
            out@.len() == i,
            forall|k: int| 0 <= k < i ==> out@[k]@ == JsonView::Text(path.0@[k]@),
    {
        out.push(Json::Text(path.0[i].clone()));
    }
    proof {
        assert(models(out@) =~= path_json(path@)->Array_0);
    }
    Json::Array(out)
}

fn operand_canonical(op: &Operand) -> (r: Json)
    ensures
        r@ == operand_json(op@),
{
    let mut m = JsonMap::new();
    match op {
        Operand::Path { path } => {
            m.insert("kind".to_string(), text_value("path"));
            m.insert("path".to_string(), path_canonical(path));
        },
        Operand::Literal { value } => {
            m.insert("kind".to_string(), text_value("literal"));
            m.insert("value".to_string(), value.clone());
        },
        Operand::Param { name } => {
            m.insert("kind".to_string(), text_value("param"));
            m.insert("name".to_string(), Json::Text(name.clone()));
        },
    }
    Json::Object(m)
}

impl Predicate {
    /// Canonical JSON object, for plan hashing.
    pub fn to_canonical_json(&self) -> (r: Json)
        ensures
            r@ == canonical(self@),
        decreases self,
    {
        match self {
            Predicate::True => Json::Object(tagged_map("true")),
            Predicate::False => Json::Object(tagged_map("false")),
            Predicate::Cmp { cmp, left, right } => {
                let mut m = tagged_map(cmp_str(*cmp));
                m.insert("left".to_string(), operand_canonical(left));
                m.insert("right".to_string(), operand_canonical(right));
                Json::Object(m)
            },
            Predicate::In { left, list, negated } => {
                let mut m = tagged_map("in");
                m.insert("left".to_string(), operand_canonical(left));
                m.insert("list".to_string(), Json::Array(clone_values(list)));
                m.insert("negated".to_string(), Json::Bool(*negated));
                Json::Object(m)
            },
            Predicate::Present { path } => {
                let mut m = tagged_map("present");
                m.insert("path".to_string(), path_canonical(path));
                Json::Object(m)
            },
            Predicate::Missing { path } => {
                let mut m = tagged_map("missing");
                m.insert("path".to_string(), path_canonical(path));
                Json::Object(m)
            },
            Predicate::IsNull { path, negated } => {
                let mut m = tagged_map("is_null");
                m.insert("path".to_string(), path_canonical(path));
                m.insert("negated".to_string(), Json::Bool(*negated));
                Json::Object(m)
            },
            Predicate::StartsWith { path, prefix } => {
                let mut m = tagged_map("starts_with");
                m.insert("path".to_string(), path_canonical(path));
                m.insert("prefix".to_string(), Json::Text(prefix.clone()));
                Json::Object(m)
            },
            Predicate::Contains { path, needle } => {
                let mut m = tagged_map("contains");
                m.insert("path".to_string(), path_canonical(path));
                m.insert("needle".to_string(), needle.clone());
                Json::Object(m)
            },
            Predicate::And { args } => {
                proof {
                    lemma_and_model(*args);
                    assert(decreases_to!(*self => self->And_args));
                }
                let mut m = tagged_map("and");
                m.insert("args".to_string(), Json::Array(Predicate::list_canonical(args)));
                Json::Object(m)
            },
            Predicate::Or { args } => {
                proof {
                    lemma_or_model(*args);
                    assert(decreases_to!(*self => self->Or_args));
                }
                let mut m = tagged_map("or");
                m.insert("args".to_string(), Json::Array(Predicate::list_canonical(args)));
                Json::Object(m)
            },
            Predicate::Not { arg } => {
                let mut m = tagged_map("not");
                m.insert("arg".to_string(), arg.to_canonical_json());
                Json::Object(m)
            },
        }
    }

    fn list_canonical(args: &Vec<Predicate>) -> (r: Vec<Json>)
        ensures
            models(r@) == canonicals(predicate_models(args@)),
        decreases args,
    {
        let mut out: Vec<Json> = Vec::new();
        for i in 0..args.len()
            invariant
                out@.len() == i,
                forall|k: int| 0 <= k < i ==> out@[k]@ == canonical(args@[k]@),
        {
            proof {
                assert(decreases_to!(*args => args@));
                assert(decreases_to!(args@ => args@[i as int]));
            }
            out.push(args[i].to_canonical_json());
        }
        proof {
            assert(models(out@) =~= canonicals(predicate_models(args@)));
        }
        out
    }
}

/// Number of nodes of a predicate.
pub open spec fn nodes(p: PredicateView) -> nat
    decreases p,
{
    match p {
        PredicateView::And { args } => 1 + nodes_of(args),
        PredicateView::Or { args } => 1 + nodes_of(args),
        PredicateView::Not { arg } => 1 + nodes(*arg),
        _ => 1,
    }
}

/// Number of nodes of a list of predicates.
pub open spec fn nodes_of(args: Seq<PredicateView>) -> nat
    decreases args,
{
    if args.len() == 0 {
        0
    } else {
        proof {
            assert(decreases_to!(args => args.subrange(0, args.len() - 1)));
            assert(args.drop_last() == args.subrange(0, args.len() - 1));
            assert(decreases_to!(args => args[args.len() - 1]));
        }
        nodes_of(args.drop_last()) + nodes(args.last())
    }
}

/// `n`, or the largest machine size where `n` exceeds it.
pub open spec fn capped(n: nat) -> usize {
    if n <= usize::MAX {
        n as usize
    } else {
        usize::MAX
    }
}

fn capped_sum(a: usize, b: usize) -> (r: usize)
    ensures
        r == capped((a + b) as nat),
{
    if b <= usize::MAX - a {
        a + b
    } else {
        usize::MAX
    }
}

/// Adding a capped number and capping again is capping the sum.
proof fn lemma_capped_sum(a: nat, b: nat)
    ensures
        capped((capped(a) + capped(b)) as nat) == capped(a + b),
{
}

impl Predicate {
    /// Counts the nodes (up to the largest machine size).
    pub fn node_count(&self) -> (r: usize)
        ensures
            r == capped(nodes(self@)),
        decreases self,
    {
        match self {
            Predicate::And { args } => {
                proof {
                    lemma_and_model(*args);
                    assert(decreases_to!(*self => self->And_args));
                    lemma_capped_sum(1, nodes_of(predicate_models(args@)));
                }
                capped_sum(1, Predicate::count_all(args))
            },
            Predicate::Or { args } => {
                proof {
                    lemma_or_model(*args);
                    assert(decreases_to!(*self => self->Or_args));
                    lemma_capped_sum(1, nodes_of(predicate_models(args@)));
                }
                capped_sum(1, Predicate::count_all(args))
            },
            Predicate::Not { arg } => {
                proof {
                    lemma_capped_sum(1, nodes(arg@));
                }
                capped_sum(1, arg.node_count())
            },
            _ => 1,
        }
    }

    fn count_all(args: &Vec<Predicate>) -> (r: usize)
        ensures
            r == capped(nodes_of(predicate_models(args@))),
        decreases args,
    {
        let mut n: usize = 0;
        let ghost all = predicate_models(args@);
        proof {
            assert(all.take(0) =~= Seq::<PredicateView>::empty());
        }
        for i in 0..args.len()
            invariant
                all == predicate_models(args@),
                n == capped(nodes_of(all.take(i as int))),
        {
            proof {
                assert(all.take(i + 1).drop_last() =~= all.take(i as int));
                assert(all.take(i + 1).last() == args@[i as int]@);
                assert(decreases_to!(*args => args@));
                assert(decreases_to!(args@ => args@[i as int]));
                lemma_capped_sum(nodes_of(all.take(i as int)), nodes(args@[i as int]@));
            }
            n = capped_sum(n, args[i].node_count());
        }
        proof {
            assert(all.take(all.len() as int) =~= all);
        }
        n
    }

    /// Fails when the node count exceeds [`MAX_PREDICATE_NODES`].
    pub fn check_node_ceiling(&self) -> (r: Result<(), Error>)
        ensures
            outcome(r) == within_ceiling(self@),
    {
        let n: usize = self.node_count();
        if n > MAX_PREDICATE_NODES {
            return Err(
                Error::QueryInvalid(
                    cat3(
                        "predicate has ",
                        decimal_text(n as u64).as_str(),
                        " nodes; ceiling is 4096",
                    ),
                ),
            );
        }
        Ok(())
    }
}

/// Whether a predicate stays within the node ceiling, or how it is refused.
pub open spec fn within_ceiling(p: PredicateView) -> Result<(), ErrorView> {
    if nodes(p) > MAX_PREDICATE_NODES {
        Err(
            ErrorView::QueryInvalid(
                "predicate has "@ + decimal(capped(nodes(p)) as nat) + " nodes; ceiling is 4096"@,
            ),
        )
    } else {
        Ok(())
    }
}

/// What a path leads to in a document; `None` when it leads nowhere. A field
/// that is `null` is there.
pub open spec fn resolve(doc: JsonView, path: Seq<Seq<char>>) -> Option<JsonView>
    decreases path.len(),
{
    if path.len() == 0 {
        Some(doc)
    } else {
        match doc {
            JsonView::Object(m) => match lookup(m, path[0]) {
                Some(next) => resolve(next, path.drop_first()),
                None => None,
            },
            _ => None,
        }
    }
}

/// What an operand stands for. A parameter that is not bound is an error, not
/// an absent field.
pub open spec fn operand_value(
    op: OperandView,
    doc: JsonView,
    params: Seq<(Seq<char>, JsonView)>,
) -> Result<Option<JsonView>, ErrorView> {
    match op {
        OperandView::Path { path } => Ok(resolve(doc, path)),
        OperandView::Literal { value } => Ok(Some(value)),
        OperandView::Param { name } => match lookup(params, name) {
            Some(v) => Ok(Some(v)),
            None => Err(
                ErrorView::QueryInvalid("unbound predicate parameter `"@ + name + "`"@),
            ),
        },
    }
}

/// Whether an ordering operator accepts an outcome.
pub open spec fn order_accepts(op: CompareOp, o: Order) -> bool {
    match op {
        CompareOp::Lt => o == Order::Less,
        CompareOp::Lte => o != Order::Greater,
        CompareOp::Gt => o == Order::Greater,
        CompareOp::Gte => o != Order::Less,
        _ => false,
    }
}

/// Whether an ordering operator holds between two values: only numbers with
/// numbers, and strings with strings, are ordered.
pub open spec fn ordered_as(op: CompareOp, a: JsonView, b: JsonView) -> bool {
    match (a, b) {
        (JsonView::Number(x), JsonView::Number(y)) => match number_order(x, y) {
            Some(o) => order_accepts(op, o),
            None => false,
        },
        (JsonView::Text(x), JsonView::Text(y)) => order_accepts(op, text_order(x, y)),
        _ => false,
    }
}

/// Whether a comparison holds. With an absent side none does, `!=` included.
pub open spec fn compares(op: CompareOp, left: Option<JsonView>, right: Option<JsonView>) -> bool {
    match (left, right) {
        (Some(a), Some(b)) => match op {
            CompareOp::Eq => json_same(a, b),
            CompareOp::Ne => !json_same(a, b),
            _ => ordered_as(op, a, b),
        },
        _ => false,
    }
}

/// Some element of the list equals `v`.
pub open spec fn listed(v: JsonView, list: Seq<JsonView>) -> bool {
    exists|i: int| 0 <= i < list.len() && json_same(v, #[trigger] list[i])
}

/// Some element of the list equals `v`, compared from the element's side.
pub open spec fn holds_element(list: Seq<JsonView>, v: JsonView) -> bool {
    exists|i: int| 0 <= i < list.len() && json_same(#[trigger] list[i], v)
}

/// Whether a predicate holds of a document, or how its evaluation fails.
pub open spec fn evaluates(
    p: PredicateView,
    doc: JsonView,
    params: Seq<(Seq<char>, JsonView)>,
) -> Result<bool, ErrorView>
    decreases p,
{
    match p {
        PredicateView::True => Ok(true),
        PredicateView::False => Ok(false),
        PredicateView::Cmp { cmp, left, right } => match operand_value(left, doc, params) {
            Err(e) => Err(e),
            Ok(l) => match operand_value(right, doc, params) {
                Err(e) => Err(e),
                Ok(r) => Ok(compares(cmp, l, r)),
            },
        },
        PredicateView::In { left, list, negated } => match operand_value(left, doc, params) {
            Err(e) => Err(e),
            Ok(l) => match l {
                None => Ok(false),
                Some(v) => Ok(listed(v, list) != negated),
            },
        },
        PredicateView::Present { path } => Ok(resolve(doc, path) is Some),
        PredicateView::Missing { path } => Ok(resolve(doc, path) is None),
        PredicateView::IsNull { path, negated } => match resolve(doc, path) {
            None => Ok(false),
            Some(v) => Ok((v is Null) != negated),
        },
        PredicateView::StartsWith { path, prefix } => match resolve(doc, path) {
            Some(JsonView::Text(s)) => Ok(begins_with(s, prefix)),
            _ => Ok(false),
        },
        PredicateView::Contains { path, needle } => match resolve(doc, path) {
            Some(JsonView::Text(s)) => match needle {
                JsonView::Text(n) => Ok(holds_text(s, n)),
                _ => Ok(false),
            },
            Some(JsonView::Array(items)) => Ok(holds_element(items, needle)),
            _ => Ok(false),
        },
        PredicateView::And { args } => all_evaluate(args, doc, params),
        PredicateView::Or { args } => any_evaluates(args, doc, params),
        PredicateView::Not { arg } => match evaluates(*arg, doc, params) {
            Err(e) => Err(e),
            Ok(b) => Ok(!b),
        },
    }
}

/// Evaluates a conjunction from the left; the first false or failure decides.
pub open spec fn all_evaluate(
    args: Seq<PredicateView>,
    doc: JsonView,
    params: Seq<(Seq<char>, JsonView)>,
) -> Result<bool, ErrorView>
    decreases args,
{
    if args.len() == 0 {
        Ok(true)
    } else {
        proof {
            assert(decreases_to!(args => args.subrange(1, args.len() as int)));
            assert(args.drop_first() == args.subrange(1, args.len() as int));
            assert(decreases_to!(args => args[0]));
        }
        match evaluates(args[0], doc, params) {
            Err(e) => Err(e),
            Ok(false) => Ok(false),
            Ok(true) => all_evaluate(args.drop_first(), doc, params),
        }
    }
}

/// Evaluates a disjunction from the left; the first true or failure decides.
pub open spec fn any_evaluates(
    args: Seq<PredicateView>,
    doc: JsonView,
    params: Seq<(Seq<char>, JsonView)>,
) -> Result<bool, ErrorView>
    decreases args,
{
    if args.len() == 0 {
        Ok(false)
    } else {
        proof {
            assert(decreases_to!(args => args.subrange(1, args.len() as int)));
            assert(args.drop_first() == args.subrange(1, args.len() as int));
            assert(decreases_to!(args => args[0]));
        }
        match evaluates(args[0], doc, params) {
            Err(e) => Err(e),
            Ok(true) => Ok(true),
            Ok(false) => any_evaluates(args.drop_first(), doc, params),
        }
    }
}

/// Path resolution result.
#[derive(Debug, PartialEq)]
pub enum Resolve {
    /// Path does not exist.
    Absent,
    /// Path exists (the value may be `null`).
    Present(Json),
}

impl View for Resolve {
    type V = Option<JsonView>;

    open spec fn view(&self) -> Option<JsonView> {
        match self {
            Resolve::Absent => None,
            Resolve::Present(v) => Some(v@),
        }
    }
}

/// Follows `path` from `doc`.
pub(crate) fn find<'a>(doc: &'a Json, path: &Vec<String>) -> (r: Option<&'a Json>)
    ensures
        match r {
            Some(v) => resolve(doc@, texts(path@)) == Some(v@),
            None => resolve(doc@, texts(path@)) is None,
        },
{
    let mut current: &Json = doc;
    let mut i: usize = 0;
    let ghost segs = texts(path@);
    proof {
        assert(segs.skip(0) =~= segs);
    }
    while i < path.len()
        invariant
            segs == texts(path@),
            i <= path@.len(),
            resolve(doc@, segs) == resolve(current@, segs.skip(i as int)),
        decreases path@.len() - i,
    {
        proof {
            assert(segs.skip(i as int)[0] == path@[i as int]@);
            assert(segs.skip(i as int).drop_first() =~= segs.skip(i + 1));
        }
        match current.as_object() {
            Some(m) => match m.get(path[i].as_str()) {
                Some(next) => {
                    current = next;
                },
                None => {
                    return None;
                },
            },
            None => {
                return None;
            },
        }
        i = i + 1;
    }
    Some(current)
}

/// Resolves `path` on `doc`.
pub fn resolve_path(doc: &Json, path: &Path) -> (r: Resolve)
    ensures
        r@ == resolve(doc@, path@),
{
    match find(doc, &path.0) {
        Some(v) => Resolve::Present(v.clone()),
        None => Resolve::Absent,
    }
}

fn resolve_operand(op: &Operand, doc: &Json, params: &JsonMap) -> (r: Result<Resolve, Error>)
    ensures
        outcome(r) == operand_value(op@, doc@, params@),
{
    match op {
        Operand::Path { path } => Ok(resolve_path(doc, path)),
        Operand::Literal { value } => Ok(Resolve::Present(value.clone())),
        Operand::Param { name } => match params.get(name.as_str()) {
            Some(v) => Ok(Resolve::Present(v.clone())),
            None => Err(
                Error::QueryInvalid(cat3("unbound predicate parameter `", name.as_str(), "`")),
            ),
        },
    }
}

fn order_matches(op: CompareOp, o: Order) -> (r: bool)
    ensures
        r == order_accepts(op, o),
{
    match op {
        CompareOp::Lt => o == Order::Less,
        CompareOp::Lte => o != Order::Greater,
        CompareOp::Gt => o == Order::Greater,
        CompareOp::Gte => o != Order::Less,
        _ => false,
    }
}

fn ord_cmp(op: CompareOp, a: &Json, b: &Json) -> (r: bool)
    ensures
        r == ordered_as(op, a@, b@),
{
    match (a, b) {
        (Json::Number(x), Json::Number(y)) => match order_numbers(x, y) {
            Some(o) => order_matches(op, o),
            None => false,
        },
        (Json::Text(x), Json::Text(y)) => order_matches(op, compare_text(x.as_str(), y.as_str())),
        _ => false,
    }
}

fn compare(op: CompareOp, left: &Resolve, right: &Resolve) -> (r: bool)
    ensures
        r == compares(op, left@, right@),
{
    match (left, right) {
        (Resolve::Present(a), Resolve::Present(b)) => match op {
            CompareOp::Eq => a.same(b),
            CompareOp::Ne => !a.same(b),
            _ => ord_cmp(op, a, b),
        },
        _ => false,
    }
}

/// Whether some element of the list equals `v`.
pub(crate) fn is_listed(v: &Json, list: &Vec<Json>) -> (r: bool)
    ensures
        r == listed(v@, models(list@)),
{
    let mut i: usize = 0;
    while i < list.len()
        invariant
            i <= list@.len(),
            forall|k: int| 0 <= k < i ==> !json_same(v@, #[trigger] models(list@)[k]),
        decreases list@.len() - i,
    {
        if v.same(&list[i]) {
            proof {
                assert(json_same(v@, models(list@)[i as int]));
            }
            return true;
        }
        i = i + 1;
    }
    false
}

/// Whether some element of the array equals `v`.
pub(crate) fn has_element(list: &Vec<Json>, v: &Json) -> (r: bool)
    ensures
        r == holds_element(models(list@), v@),
{
    let mut i: usize = 0;
    while i < list.len()
        invariant
            i <= list@.len(),
            forall|k: int| 0 <= k < i ==> !json_same(#[trigger] models(list@)[k], v@),
        decreases list@.len() - i,
    {
        if list[i].same(v) {
            proof {
                assert(json_same(models(list@)[i as int], v@));
            }
            return true;
        }
        i = i + 1;
    }
    false
}

fn eval_pred(p: &Predicate, doc: &Json, params: &JsonMap) -> (r: Result<bool, Error>)
    ensures
        match r {
            Ok(b) => evaluates(p@, doc@, params@) == Ok::<bool, ErrorView>(b),
            Err(e) => evaluates(p@, doc@, params@) == Err::<bool, ErrorView>(e@),
        },
    decreases p,
{
    match p {
        Predicate::True => Ok(true),
        Predicate::False => Ok(false),
        Predicate::Cmp { cmp, left, right } => {
            let l = resolve_operand(left, doc, params)?;
            let r = resolve_operand(right, doc, params)?;
            Ok(compare(*cmp, &l, &r))
        },
        Predicate::In { left, list, negated } => {
            let l = resolve_operand(left, doc, params)?;
            match &l {
                Resolve::Absent => Ok(false),
                Resolve::Present(v) => Ok(is_listed(v, list) != *negated),
            }
        },
        Predicate::Present { path } => Ok(find(doc, &path.0).is_some()),
        Predicate::Missing { path } => Ok(find(doc, &path.0).is_none()),
        Predicate::IsNull { path, negated } => match find(doc, &path.0) {
            None => Ok(false),
            Some(v) => Ok(v.is_null() != *negated),
        },
        Predicate::StartsWith { path, prefix } => match find(doc, &path.0) {
            Some(Json::Text(s)) => Ok(starts_with(s.as_str(), prefix.as_str())),
            _ => Ok(false),
        },
        Predicate::Contains { path, needle } => match find(doc, &path.0) {
            Some(Json::Text(s)) => match needle {
                Json::Text(n) => Ok(contains(s.as_str(), n.as_str())),
                _ => Ok(false),
            },
            Some(Json::Array(items)) => Ok(has_element(items, needle)),
            _ => Ok(false),
        },
        Predicate::And { args } => {
            proof {
                lemma_and_model(*args);
                assert(decreases_to!(*p => p->And_args));
            }
            eval_all(args, doc, params)
        },
        Predicate::Or { args } => {
            proof {
                lemma_or_model(*args);
                assert(decreases_to!(*p => p->Or_args));
            }
            eval_any(args, doc, params)
        },
        Predicate::Not { arg } => {
            let b = eval_pred(arg, doc, params)?;
            Ok(!b)
        },
    }
}

fn eval_all(args: &Vec<Predicate>, doc: &Json, params: &JsonMap) -> (r: Result<bool, Error>)
    ensures
        match r {
            Ok(b) => all_evaluate(predicate_models(args@), doc@, params@) == Ok::<bool, ErrorView>(
                b,
            ),
            Err(e) => all_evaluate(predicate_models(args@), doc@, params@) == Err::<
                bool,
                ErrorView,
            >(e@),
        },
    decreases args,
{
    let ghost all = predicate_models(args@);
    let mut i: usize = 0;
    proof {
        assert(all.skip(0) =~= all);
    }
    while i < args.len()
        invariant
            all == predicate_models(args@),
            i <= args@.len(),
            all_evaluate(all, doc@, params@) == all_evaluate(all.skip(i as int), doc@, params@),
        decreases args@.len() - i,
    {
        proof {
            assert(all.skip(i as int)[0] == args@[i as int]@);
            assert(all.skip(i as int).drop_first() =~= all.skip(i + 1));
            assert(decreases_to!(*args => args@));
            assert(decreases_to!(args@ => args@[i as int]));
        }
        let b = eval_pred(&args[i], doc, params)?;
        if !b {
            return Ok(false);
        }
        i = i + 1;
    }
    Ok(true)
}

fn eval_any(args: &Vec<Predicate>, doc: &Json, params: &JsonMap) -> (r: Result<bool, Error>)
    ensures
        match r {
            Ok(b) => any_evaluates(predicate_models(args@), doc@, params@) == Ok::<bool, ErrorView>(
                b,
            ),
            Err(e) => any_evaluates(predicate_models(args@), doc@, params@) == Err::<
                bool,
                ErrorView,
            >(e@),
        },
    decreases args,
{
    let ghost all = predicate_models(args@);
    let mut i: usize = 0;
    proof {
        assert(all.skip(0) =~= all);
    }
    while i < args.len()
        invariant
            all == predicate_models(args@),
            i <= args@.len(),
            any_evaluates(all, doc@, params@) == any_evaluates(all.skip(i as int), doc@, params@),
        decreases args@.len() - i,
    {
        proof {
            assert(all.skip(i as int)[0] == args@[i as int]@);
            assert(all.skip(i as int).drop_first() =~= all.skip(i + 1));
            assert(decreases_to!(*args => args@));
            assert(decreases_to!(args@ => args@[i as int]));
        }
        let b = eval_pred(&args[i], doc, params)?;
        if b {
            return Ok(true);
        }
        i = i + 1;
    }
    Ok(false)
}

impl Predicate {
    /// Total evaluation against a JSON document and bound parameters. A
    /// missing parameter is a bind error.
    pub fn eval(&self, doc: &Json, params: &JsonMap) -> (r: Result<bool, Error>)
        ensures
            match r {
                Ok(b) => within_ceiling(self@) is Ok && evaluates(self@, doc@, params@) == Ok::<
                    bool,
                    ErrorView,
                >(b),
                Err(e) => match within_ceiling(self@) {
                    Err(over) => e@ == over,
                    Ok(_) => evaluates(self@, doc@, params@) == Err::<bool, ErrorView>(e@),
                },
            },
    {
        self.check_node_ceiling()?;
        eval_pred(self, doc, params)
    }

    /// Field equality to a named parameter.
    pub fn field_eq_param(path: Path, param_name: &str) -> (r: Predicate)
        ensures
            r@ == (PredicateView::Cmp {
                cmp: CompareOp::Eq,
                left: OperandView::Path { path: path@ },
                right: OperandView::Param { name: param_name@ },
            }),
    {
        Predicate::Cmp {
            cmp: CompareOp::Eq,
            left: Operand::path(path),
            right: Operand::param(param_name),
        }
    }

    /// Field equality to a literal.
    pub fn field_eq_literal(path: Path, value: Json) -> (r: Predicate)
        ensures
            r@ == (PredicateView::Cmp {
                cmp: CompareOp::Eq,
                left: OperandView::Path { path: path@ },
                right: OperandView::Literal { value: value@ },
            }),
    {
        Predicate::Cmp {
            cmp: CompareOp::Eq,
            left: Operand::path(path),
            right: Operand::literal(value),
        }
    }
}

/// Fluent field builder for predicates.
#[derive(Debug)]
pub struct PredField {
    path: Path,
}

impl View for PredField {
    type V = Seq<Seq<char>>;

    closed spec fn view(&self) -> Seq<Seq<char>> {
        self.path@
    }
}

/// Starts a field path for a predicate.
pub fn field(path: &str) -> (r: Result<PredField, Error>)
    ensures
        outcome(r) == path_of_dotted(path@),
{
    let path = Path::parse_dotted(path)?;
    Ok(PredField { path })
}

/// Named parameter operand.
pub fn param(name: &str) -> (r: Operand)
    ensures
        r@ == (OperandView::Param { name: name@ }),
{
    Operand::param(name)
}

impl PredField {
    /// Equality to an operand.
    pub fn eq(self, right: Operand) -> (r: Predicate)
        ensures
            r@ == (PredicateView::Cmp {
                cmp: CompareOp::Eq,
                left: OperandView::Path { path: self@ },
                right: right@,
            }),
    {
        Predicate::Cmp { cmp: CompareOp::Eq, left: Operand::path(self.path), right }
    }

    /// Inequality.
    pub fn ne(self, right: Operand) -> (r: Predicate)
        ensures
            r@ == (PredicateView::Cmp {
                cmp: CompareOp::Ne,
                left: OperandView::Path { path: self@ },
                right: right@,
            }),
    {
        Predicate::Cmp { cmp: CompareOp::Ne, left: Operand::path(self.path), right }
    }

    /// Less-than.
    pub fn lt(self, right: Operand) -> (r: Predicate)
        ensures
            r@ == (PredicateView::Cmp {
                cmp: CompareOp::Lt,
                left: OperandView::Path { path: self@ },
                right: right@,
            }),
    {
        Predicate::Cmp { cmp: CompareOp::Lt, left: Operand::path(self.path), right }
    }

    /// Greater-than.
    pub fn gt(self, right: Operand) -> (r: Predicate)
        ensures
            r@ == (PredicateView::Cmp {
                cmp: CompareOp::Gt,
                left: OperandView::Path { path: self@ },
                right: right@,
            }),
    {
        Predicate::Cmp { cmp: CompareOp::Gt, left: Operand::path(self.path), right }
    }

    /// Field present (`null` counted in).
    pub fn present(self) -> (r: Predicate)
        ensures
            r@ == (PredicateView::Present { path: self@ }),
    {
        Predicate::Present { path: self.path }
    }

    /// Field missing.
    pub fn missing(self) -> (r: Predicate)
        ensures
            r@ == (PredicateView::Missing { path: self@ }),
    {
        Predicate::Missing { path: self.path }
    }
}

/// An absent field makes every comparison false, `!=` included.
pub proof fn law_absent_compares_false(
    op: CompareOp,
    path: Seq<Seq<char>>,
    right: OperandView,
    doc: JsonView,
    params: Seq<(Seq<char>, JsonView)>,
)
    requires
        resolve(doc, path) is None,
        operand_value(right, doc, params) is Ok,
    ensures
        evaluates(
            PredicateView::Cmp { cmp: op, left: OperandView::Path { path }, right },
            doc,
            params,
        ) == Ok::<bool, ErrorView>(false),
{
}

/// Every parameter an operand names is bound.
pub open spec fn operand_bound(op: OperandView, params: Seq<(Seq<char>, JsonView)>) -> bool {
    match op {
        OperandView::Param { name } => lookup(params, name) is Some,
        _ => true,
    }
}

/// Every parameter a predicate names is bound.
pub open spec fn all_bound(p: PredicateView, params: Seq<(Seq<char>, JsonView)>) -> bool
    decreases p,
{
    match p {
        PredicateView::Cmp { left, right, .. } => operand_bound(left, params) && operand_bound(
            right,
            params,
        ),
        PredicateView::In { left, .. } => operand_bound(left, params),
        PredicateView::And { args } => forall|i: int|
            0 <= i < args.len() ==> all_bound(#[trigger] args[i], params),
        PredicateView::Or { args } => forall|i: int|
            0 <= i < args.len() ==> all_bound(#[trigger] args[i], params),
        PredicateView::Not { arg } => all_bound(*arg, params),
        _ => true,
    }
}

/// Evaluation is total: with every parameter bound it gives a truth value on
/// every document.
pub proof fn law_evaluation_is_total(
    p: PredicateView,
    doc: JsonView,
    params: Seq<(Seq<char>, JsonView)>,
)
    requires
        all_bound(p, params),
    ensures
        evaluates(p, doc, params) is Ok,
    decreases p,
{
    match p {
        PredicateView::And { args } => {
            lemma_all_total(args, doc, params);
        },
        PredicateView::Or { args } => {
            lemma_any_total(args, doc, params);
        },
        PredicateView::Not { arg } => {
            law_evaluation_is_total(*arg, doc, params);
        },
        _ => {},
    }
}

proof fn lemma_all_total(
    args: Seq<PredicateView>,
    doc: JsonView,
    params: Seq<(Seq<char>, JsonView)>,
)
    requires
        forall|i: int| 0 <= i < args.len() ==> all_bound(#[trigger] args[i], params),
    ensures
        all_evaluate(args, doc, params) is Ok,
    decreases args,
{
    if args.len() > 0 {
        assert(decreases_to!(args => args.subrange(1, args.len() as int)));
        assert(args.drop_first() == args.subrange(1, args.len() as int));
        assert(decreases_to!(args => args[0]));
        law_evaluation_is_total(args[0], doc, params);
        lemma_all_total(args.drop_first(), doc, params);
    }
}

proof fn lemma_any_total(
    args: Seq<PredicateView>,
    doc: JsonView,
    params: Seq<(Seq<char>, JsonView)>,
)
    requires
        forall|i: int| 0 <= i < args.len() ==> all_bound(#[trigger] args[i], params),
    ensures
        any_evaluates(args, doc, params) is Ok,
    decreases args,
{
    if args.len() > 0 {
        assert(decreases_to!(args => args.subrange(1, args.len() as int)));
        assert(args.drop_first() == args.subrange(1, args.len() as int));
        assert(decreases_to!(args => args[0]));
        law_evaluation_is_total(args[0], doc, params);
        lemma_any_total(args.drop_first(), doc, params);
    }
}

/// A field is either present or missing, never both; a field that is `null`
/// is present.
pub proof fn law_present_or_missing(
    path: Seq<Seq<char>>,
    doc: JsonView,
    params: Seq<(Seq<char>, JsonView)>,
)
    ensures
        evaluates(PredicateView::Present { path }, doc, params)->Ok_0 != evaluates(
            PredicateView::Missing { path },
            doc,
            params,
        )->Ok_0,
        evaluates(PredicateView::IsNull { path, negated: false }, doc, params) == Ok::<
            bool,
            ErrorView,
        >(true) ==> evaluates(PredicateView::Present { path }, doc, params) == Ok::<bool, ErrorView>(
            true,
        ),
{
}

/// The dotted form of a path whose segments are not empty and hold no dot
/// parses back to that path.
pub proof fn law_dotless_segments_round_trip(path: Seq<Seq<char>>)
    requires
        path_of_segments(path) is Ok,
        forall|i: int|
            0 <= i < path.len() ==> (#[trigger] path[i]).len() > 0 && !path[i].contains('.'),
    ensures
        path_of_dotted(joined(path, "."@)) == Ok::<Seq<Seq<char>>, ErrorView>(path),
{
    reveal_strlit(".");
    assert("."@ =~= seq!['.']);
    crate::text::law_join_split(path, '.');
    let s = joined(path, "."@);
    if s.len() == 0 {
        assert(pieces(s, '.')[0].len() == 0);
    }
}

/// The dotted form of a path that was parsed parses back to that path.
pub proof fn law_dotted_round_trip(s: Seq<char>)
    requires
        path_of_dotted(s) is Ok,
    ensures
        path_of_dotted(joined(path_of_dotted(s)->Ok_0, "."@)) == path_of_dotted(s),
{
    reveal_strlit(".");
    crate::text::law_split_join(s, '.');
    assert("."@ =~= seq!['.']);
}

} // verus!
