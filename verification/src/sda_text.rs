//! Expression text of filters: a boolean expression over the binding `input`.
//!
//! A path is read with `getPath`, which yields `None` for an absent field and
//! `Some(null)` for one that is `null`.
use crate::codec::{hex_char, hex_digit};
use crate::filter::{
    filter_models, lemma_and_filter_model, lemma_or_filter_model, Filter, FilterView, Pred, PredView,
};
use crate::json::{group_json_model, models, Json, JsonMap, JsonView};
use crate::json_text::{json_text, write_json};
use crate::text::{cat2, cat3, cat5, chars_of, join, joined, pieces, split, texts};
use vstd::prelude::*;

verus! {

broadcast use group_json_model;

/// The four lowest hexadecimal digits of a number.
pub open spec fn hex4(n: nat) -> Seq<char> {
    seq![
        hex_digit(n / 4096 % 16),
        hex_digit(n / 256 % 16),
        hex_digit(n / 16 % 16),
        hex_digit(n % 16),
    ]
}

/// A control character (Unicode general category `Cc`).
pub open spec fn control(c: char) -> bool {
    (c as u32) < 0x20 || 0x7f <= (c as u32) <= 0x9f
}

/// A character as it stands in a quoted literal.
pub open spec fn escaped_char(c: char) -> Seq<char> {
    if c == '\\' {
        "\\\\"@
    } else if c == '"' {
        "\\\""@
    } else if c == '\n' {
        "\\n"@
    } else if c == '\r' {
        "\\r"@
    } else if c == '\t' {
        "\\t"@
    } else if control(c) {
        "\\u"@ + hex4(c as u32 as nat)
    } else {
        seq![c]
    }
}

/// A text as it stands in a quoted literal.
pub open spec fn escaped(s: Seq<char>) -> Seq<char>
    decreases s.len(),
{
    if s.len() == 0 {
        Seq::empty()
    } else {
        escaped(s.drop_last()) + escaped_char(s.last())
    }
}

/// A string literal.
pub open spec fn quoted(s: Seq<char>) -> Seq<char> {
    "\""@ + escaped(s) + "\""@
}

/// The literal of a JSON value.
pub open spec fn literal(v: JsonView) -> Seq<char>
    decreases v,
{
    match v {
        JsonView::Null => "null"@,
        JsonView::Bool(b) => if b {
            "true"@
        } else {
            "false"@
        },
        JsonView::Number(_) => json_text(v),
        JsonView::Text(s) => quoted(s),
        JsonView::Array(items) => "Seq["@ + joined(literals(items), ", "@) + "]"@,
        JsonView::Object(m) => "Map{"@ + joined(member_texts(m), ", "@) + "}"@,
    }
}

/// The literals of the members of an object.
pub open spec fn member_texts(m: Seq<(Seq<char>, JsonView)>) -> Seq<Seq<char>>
    decreases m,
{
    Seq::new(
        m.len(),
        |i: int|
            if 0 <= i < m.len() {
                quoted(m[i].0) + " -> "@ + literal(m[i].1)
            } else {
                Seq::empty()
            },
    )
}

/// The literals of a list of JSON values.
pub open spec fn literals(items: Seq<JsonView>) -> Seq<Seq<char>>
    decreases items,
{
    Seq::new(
        items.len(),
        |i: int|
            if 0 <= i < items.len() {
                literal(items[i])
            } else {
                Seq::empty()
            },
    )
}

/// The expression that reads a path.
pub open spec fn path_text(path: Seq<char>) -> Seq<char> {
    "getPath(input, Seq["@ + (if path.len() == 0 {
        Seq::empty()
    } else {
        joined(pieces(path, '.').map_values(|s: Seq<char>| quoted(s)), ", "@)
    }) + "])"@
}

/// The expression that holds where a comparison with a literal is true.
pub open spec fn ordered_text(gp: Seq<char>, sign: Seq<char>, v: JsonView) -> Seq<char> {
    "mapOpt("@ + gp + ", x => x "@ + sign + literal(v) + ") = Some(true)"@
}

/// The expression of a field predicate.
pub open spec fn pred_text(path: Seq<char>, pred: PredView) -> Seq<char> {
    let gp = path_text(path);
    match pred {
        PredView::Eq(v) => gp + " = Some("@ + literal(v) + ")"@,
        PredView::Ne(v) => gp + " != Some("@ + literal(v) + ")"@,
        PredView::Lt(v) => ordered_text(gp, "< "@, v),
        PredView::Lte(v) => ordered_text(gp, "<= "@, v),
        PredView::Gt(v) => ordered_text(gp, "> "@, v),
        PredView::Gte(v) => ordered_text(gp, ">= "@, v),
        PredView::In(list) => "mapOpt("@ + gp + ", x => x in Seq["@ + joined(literals(list), ", "@)
            + "]) = Some(true)"@,
        PredView::Exists(want) => if want {
            gp + " != None"@
        } else {
            gp + " = None"@
        },
        PredView::Prefix(p) => "mapOpt("@ + gp + ", s => startsWith(s, "@ + quoted(p)
            + ")) = Some(true)"@,
        PredView::Contains(needle) => {
            let lit = literal(needle);
            if needle is Text {
                "((mapOpt("@ + gp + ", v => typeOf(v) = \"str\") = Some(true) and mapOpt("@ + gp
                    + ", v => strContains(v, "@ + lit + ")) = Some(true)) or (mapOpt("@ + gp
                    + ", v => typeOf(v) = \"seq\") = Some(true) and mapOpt("@ + gp + ", v => "@
                    + lit + " in v) = Some(true)))"@
            } else {
                "mapOpt("@ + gp + ", v => "@ + lit + " in v) = Some(true)"@
            }
        },
    }
}

/// The expression of a filter.
pub open spec fn filter_text(f: FilterView) -> Seq<char>
    decreases f,
{
    match f {
        FilterView::Always => "true"@,
        FilterView::Field { path, pred } => pred_text(path, pred),
        FilterView::And(parts) => if parts.len() == 0 {
            "true"@
        } else {
            joined(filter_texts(parts), " and "@)
        },
        FilterView::Or(parts) => if parts.len() == 0 {
            "false"@
        } else {
            joined(filter_texts(parts), " or "@)
        },
        FilterView::Not(inner) => "not ("@ + filter_text(*inner) + ")"@,
    }
}

/// The expressions of a list of filters, each in brackets.
pub open spec fn filter_texts(parts: Seq<FilterView>) -> Seq<Seq<char>>
    decreases parts,
{
    Seq::new(
        parts.len(),
        |i: int|
            if 0 <= i < parts.len() {
                "("@ + filter_text(parts[i]) + ")"@
            } else {
                Seq::empty()
            },
    )
}

/// A string literal of the expression language.
pub fn sda_string_literal(s: &str) -> (r: String)
    ensures
        r@ == quoted(s@),
{
    let chars = chars_of(s);
    let mut out = String::new();
    let mut i: usize = 0;
    proof {
        assert(s@.take(0) =~= Seq::<char>::empty());
    }
    while i < chars.len()
        invariant
            chars@ == s@,
            i <= chars@.len(),
            out@ == escaped(s@.take(i as int)),
        decreases chars@.len() - i,
    {
        let c = chars[i];
        proof {
            assert(s@.take(i + 1).drop_last() =~= s@.take(i as int));
            assert(s@.take(i + 1).last() == c);
        }
        if c == '\\' {
            out.append("\\\\");
        } else if c == '"' {
            out.append("\\\"");
        } else if c == '\n' {
            out.append("\\n");
        } else if c == '\r' {
            out.append("\\r");
        } else if c == '\t' {
            out.append("\\t");
        } else {
            let u: u32 = c as u32;
            if u < 0x20 || (0x7f <= u && u <= 0x9f) {
                let ghost before = out@;
                out.append("\\u");
                out.push(hex_char((u / 4096 % 16) as u8));
                out.push(hex_char((u / 256 % 16) as u8));
                out.push(hex_char((u / 16 % 16) as u8));
                out.push(hex_char((u % 16) as u8));
                proof {
                    assert(out@ =~= before + ("\\u"@ + hex4(u as nat)));
                }
            } else {
                let ghost before = out@;
                out.push(c);
                proof {
                    assert(out@ =~= before + seq![c]);
                }
            }
        }
        i = i + 1;
    }
    proof {
        assert(s@.take(s@.len() as int) =~= s@);
    }
    cat3("\"", out.as_str(), "\"")
}

fn literal_list(items: &Vec<Json>) -> (r: Vec<String>)
    ensures
        texts(r@) == literals(models(items@)),
    decreases items,
{
    let mut out: Vec<String> = Vec::new();
    for i in 0..items.len()
        invariant
            out@.len() == i,
            forall|k: int| 0 <= k < i ==> (#[trigger] out@[k])@ == literal(items@[k]@),
    {
        proof {
            assert(decreases_to!(*items => items@));
            assert(decreases_to!(items@ => items@[i as int]));
        }
        out.push(json_to_sda_literal(&items[i]));
    }
    proof {
        assert(texts(out@) =~= literals(models(items@)));
    }
    out
}

fn literal_map(m: &JsonMap) -> (r: Vec<String>)
    ensures
        texts(r@) == member_texts(m@),
    decreases m,
{
    let mut out: Vec<String> = Vec::new();
    for i in 0..m.entries.len()
        invariant
            out@.len() == i,
            forall|k: int|
                0 <= k < i ==> (#[trigger] out@[k])@ == quoted(m@[k].0) + " -> "@ + literal(
                    m@[k].1,
                ),
    {
        proof {
            assert(decreases_to!(*m => m.entries));
            assert(decreases_to!(m.entries => m.entries@));
            assert(decreases_to!(m.entries@ => m.entries@[i as int]));
            assert(decreases_to!(m.entries@[i as int] => m.entries@[i as int].1));
        }
        let key = sda_string_literal(m.entries[i].0.as_str());
        let value = json_to_sda_literal(&m.entries[i].1);
        out.push(cat3(key.as_str(), " -> ", value.as_str()));
    }
    proof {
        assert(texts(out@) =~= member_texts(m@));
    }
    out
}

/// The literal of a JSON value.
pub fn json_to_sda_literal(v: &Json) -> (r: String)
    ensures
        r@ == literal(v@),
    decreases v,
{
    match v {
        Json::Null => "null".to_string(),
        Json::Bool(b) => if *b {
            "true".to_string()
        } else {
            "false".to_string()
        },
        Json::Number(_) => write_json(v),
        Json::Text(s) => sda_string_literal(s.as_str()),
        Json::Array(items) => {
            proof {
                assert(decreases_to!(*v => v->Array_0));
            }
            let list = literal_list(items);
            cat3("Seq[", join(&list, ", ").as_str(), "]")
        },
        Json::Object(m) => {
            proof {
                assert(decreases_to!(*v => v->Object_0));
            }
            let list = literal_map(m);
            cat3("Map{", join(&list, ", ").as_str(), "}")
        },
    }
}

/// The expression that reads a path.
pub fn path_expr(path: &str) -> (r: String)
    ensures
        r@ == path_text(path@),
{
    let mut quotes: Vec<String> = Vec::new();
    if !path.is_empty() {
        let segs = split(path, '.');
        let mut i: usize = 0;
        while i < segs.len()
            invariant
                texts(segs@) == pieces(path@, '.'),
                i <= segs@.len(),
                quotes@.len() == i,
                forall|k: int|
                    0 <= k < i ==> (#[trigger] quotes@[k])@ == quoted(pieces(path@, '.')[k]),
            decreases segs@.len() - i,
        {
            proof {
                assert(texts(segs@)[i as int] == segs@[i as int]@);
            }
            quotes.push(sda_string_literal(segs[i].as_str()));
            i = i + 1;
        }
        proof {
            assert(texts(quotes@) =~= pieces(path@, '.').map_values(|s: Seq<char>| quoted(s)));
        }
    } else {
        proof {
            assert(joined(texts(quotes@), ", "@) =~= Seq::<char>::empty());
        }
    }
    cat3("getPath(input, Seq[", join(&quotes, ", ").as_str(), "])")
}

fn ordered_expr(gp: &str, sign: &str, v: &Json) -> (r: String)
    ensures
        r@ == ordered_text(gp@, sign@, v@),
{
    let head = cat3("mapOpt(", gp, ", x => x ");
    let lit = json_to_sda_literal(v);
    let tail = cat3(head.as_str(), sign, lit.as_str());
    cat2(tail.as_str(), ") = Some(true)")
}

fn contains_expr(gp: &str, needle: &Json) -> (r: String)
    ensures
        r@ == (if needle@ is Text {
            "((mapOpt("@ + gp@ + ", v => typeOf(v) = \"str\") = Some(true) and mapOpt("@ + gp@
                + ", v => strContains(v, "@ + literal(needle@) + ")) = Some(true)) or (mapOpt("@ + gp@
                + ", v => typeOf(v) = \"seq\") = Some(true) and mapOpt("@ + gp@ + ", v => "@
                + literal(needle@) + " in v) = Some(true)))"@
        } else {
            "mapOpt("@ + gp@ + ", v => "@ + literal(needle@) + " in v) = Some(true)"@
        }),
{
    let lit = json_to_sda_literal(needle);
    match needle {
        Json::Text(_) => {
            let a = cat3(
                "((mapOpt(",
                gp,
                ", v => typeOf(v) = \"str\") = Some(true) and mapOpt(",
            );
            let b = cat5(
                a.as_str(),
                gp,
                ", v => strContains(v, ",
                lit.as_str(),
                ")) = Some(true)) or (mapOpt(",
            );
            let c = cat5(
                b.as_str(),
                gp,
                ", v => typeOf(v) = \"seq\") = Some(true) and mapOpt(",
                gp,
                ", v => ",
            );
            cat3(c.as_str(), lit.as_str(), " in v) = Some(true)))")
        },
        _ => cat5("mapOpt(", gp, ", v => ", lit.as_str(), " in v) = Some(true)"),
    }
}

fn compile_field_pred(path: &str, pred: &Pred) -> (r: String)
    ensures
        r@ == pred_text(path@, pred@),
{
    let expr = path_expr(path);
    let gp = expr.as_str();
    match pred {
        Pred::Eq(v) => {
            let lit = json_to_sda_literal(v);
            let head = cat3(gp, " = Some(", lit.as_str());
            cat2(head.as_str(), ")")
        },
        Pred::Ne(v) => {
            let lit = json_to_sda_literal(v);
            let head = cat3(gp, " != Some(", lit.as_str());
            cat2(head.as_str(), ")")
        },
        Pred::Lt(v) => ordered_expr(gp, "< ", v),
        Pred::Lte(v) => ordered_expr(gp, "<= ", v),
        Pred::Gt(v) => ordered_expr(gp, "> ", v),
        Pred::Gte(v) => ordered_expr(gp, ">= ", v),
        Pred::In(list) => {
            let items = literal_list(list);
            cat5(
                "mapOpt(",
                gp,
                ", x => x in Seq[",
                join(&items, ", ").as_str(),
                "]) = Some(true)",
            )
        },
        Pred::Exists(want) => if *want {
            cat2(gp, " != None")
        } else {
            cat2(gp, " = None")
        },
        Pred::Prefix(p) => {
            let lit = sda_string_literal(p.as_str());
            cat5("mapOpt(", gp, ", s => startsWith(s, ", lit.as_str(), ")) = Some(true)")
        },
        Pred::Contains(needle) => contains_expr(gp, needle),
    }
}

fn filter_text_list(parts: &Vec<Filter>) -> (r: Vec<String>)
    ensures
        texts(r@) == filter_texts(filter_models(parts@)),
    decreases parts,
{
    let mut out: Vec<String> = Vec::new();
    for i in 0..parts.len()
        invariant
            out@.len() == i,
            forall|k: int|
                0 <= k < i ==> (#[trigger] out@[k])@ == "("@ + filter_text(parts@[k]@) + ")"@,
    {
        proof {
            assert(decreases_to!(*parts => parts@));
            assert(decreases_to!(parts@ => parts@[i as int]));
        }
        let inner = parts[i].to_sda();
        out.push(cat3("(", inner.as_str(), ")"));
    }
    proof {
        assert(texts(out@) =~= filter_texts(filter_models(parts@)));
    }
    out
}

impl Filter {
    /// Compiles this filter to a boolean expression over the binding `input`.
    pub fn to_sda(&self) -> (r: String)
        ensures
            r@ == filter_text(self@),
        decreases self,
    {
        match self {
            Filter::Always => "true".to_string(),
            Filter::Field { path, pred } => compile_field_pred(path.as_str(), pred),
            Filter::And(parts) => {
                proof {
                    assert(decreases_to!(*self => self->And_0));
                    lemma_and_filter_model(*parts);
                }
                if parts.len() == 0 {
                    return "true".to_string();
                }
                let list = filter_text_list(parts);
                join(&list, " and ")
            },
            Filter::Or(parts) => {
                proof {
                    assert(decreases_to!(*self => self->Or_0));
                    lemma_or_filter_model(*parts);
                }
                if parts.len() == 0 {
                    return "false".to_string();
                }
                let list = filter_text_list(parts);
                join(&list, " or ")
            },
            Filter::Not(inner) => {
                let text = inner.to_sda();
                cat3("not (", text.as_str(), ")")
            },
        }
    }
}

} // verus!
