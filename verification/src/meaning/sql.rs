//! What SQL texts mean.
//!
//! A condition is a tree of tests joined by AND, OR and NOT. The laws say how a
//! condition is spelled in words, and that the filter which the text compiles
//! to matches exactly the documents of which the condition holds.
use crate::dialects::sql::{
    and_at, and_tail, column_tail, comparison, condition_at, doubled_quotes, keyword_at,
    law_null_test, law_quoted_literal, lexed, lexeme, list_at, lowered_query, name_end,
    not_at, null_test, number_end, number_value, or_at, or_tail, path_at, path_tail, primary_at,
    query_at, selection_at, source_at, sql_compiled, test_at, token_at, value_at, Lexeme, TokView,
};
use crate::filter::{conjunction, disjunction, field_value, filter_matches, FilterView, PredView};
use crate::json::JsonView;
use crate::meaning::{
    exact, has_member, lacks_member, law_filter_compares_integers, law_filter_keeps_kinds_apart,
    law_filter_tests_equality, law_filters_combine, on_field, plain_name, whole,
};
use crate::text::{
    decimal, digit, digits_value, integer_in, joined, lower_char, lowered, trimmed, white_space,
};
use vstd::prelude::*;

verus! {

/// A letter or `_`.
pub open spec fn is_letter(c: char) -> bool {
    ('a' <= c && c <= 'z') || ('A' <= c && c <= 'Z') || c == '_'
}

/// A decimal digit.
pub open spec fn is_figure(c: char) -> bool {
    '0' <= c && c <= '9'
}

/// A character that a name can go on with.
pub open spec fn in_name(c: char) -> bool {
    is_letter(c) || is_figure(c) || c == '$'
}

/// A character that a number can go on with.
pub open spec fn in_number(c: char) -> bool {
    is_figure(c) || c == '.'
}

/// A name as SQL writes it.
pub open spec fn is_name(s: Seq<char>) -> bool {
    &&& s.len() > 0
    &&& is_letter(s[0])
    &&& forall|k: int| 0 <= k < s.len() ==> in_name(#[trigger] s[k])
}

/// A number as SQL writes it: digits and dots, with a sign before them or not.
pub open spec fn is_number(s: Seq<char>) -> bool {
    &&& s.len() > 0
    &&& is_figure(s[0]) || (s[0] == '-' && s.len() > 1 && is_figure(s[1]))
    &&& forall|k: int| 1 <= k < s.len() ==> in_number(#[trigger] s[k])
}

/// How a token is spelled.
pub open spec fn spells(w: Seq<char>, t: TokView) -> bool {
    match t {
        TokView::Ident(s) => w == s && is_name(s),
        TokView::Number(s) => w == s && is_number(s),
        TokView::Literal(s) => w == seq!['\''] + doubled_quotes(s) + seq!['\''],
        TokView::Eq => w == seq!['='],
        TokView::Ne => w == seq!['!', '='] || w == seq!['<', '>'],
        TokView::Lt => w == seq!['<'],
        TokView::Lte => w == seq!['<', '='],
        TokView::Gt => w == seq!['>'],
        TokView::Gte => w == seq!['>', '='],
        TokView::LParen => w == seq!['('],
        TokView::RParen => w == seq![')'],
        TokView::Comma => w == seq![','],
        TokView::Star => w == seq!['*'],
        TokView::Dot => w == seq!['.'],
    }
}

/// A character that does not go on with a token where it stands behind it.
pub open spec fn apart(t: TokView, c: char) -> bool {
    match t {
        TokView::Ident(_) => !in_name(c),
        TokView::Number(_) => !in_number(c),
        TokView::Literal(_) => c != '\'',
        TokView::Lt => c != '=' && c != '>',
        TokView::Gt => c != '=',
        _ => true,
    }
}

/// Only white space.
pub open spec fn blank(s: Seq<char>) -> bool {
    forall|k: int| 0 <= k < s.len() ==> white_space(#[trigger] s[k])
}

/// Words one behind the other, each followed by its gap.
pub open spec fn typed(words: Seq<Seq<char>>, gaps: Seq<Seq<char>>) -> Seq<char>
    decreases words.len(),
{
    if words.len() == 0 {
        Seq::empty()
    } else {
        words[0] + gaps[0] + typed(words.drop_first(), gaps.drop_first())
    }
}

/// Words with gaps of white space spell tokens. A gap may be empty where the
/// next word does not go on with the one before it.
pub open spec fn spelled(
    words: Seq<Seq<char>>,
    gaps: Seq<Seq<char>>,
    toks: Seq<TokView>,
) -> bool {
    &&& words.len() == toks.len()
    &&& gaps.len() == toks.len()
    &&& forall|i: int| 0 <= i < toks.len() ==> spells(words[i], #[trigger] toks[i])
    &&& forall|i: int| 0 <= i < toks.len() ==> blank(#[trigger] gaps[i])
    &&& forall|i: int|
        0 <= i < toks.len() - 1 && gaps[i].len() == 0 ==> apart(#[trigger] toks[i], words[i + 1][0])
}

proof fn lemma_name_stops(s: Seq<char>, i: int, end: int)
    requires
        0 <= i <= end <= s.len(),
        forall|k: int| i <= k < end ==> in_name(#[trigger] s[k]),
        end < s.len() ==> !in_name(s[end]),
    ensures
        name_end(s, i) == end,
    decreases end - i,
{
    if i < end {
        lemma_name_stops(s, i + 1, end);
    }
}

proof fn lemma_number_stops(s: Seq<char>, i: int, end: int)
    requires
        0 <= i <= end <= s.len(),
        forall|k: int| i <= k < end ==> in_number(#[trigger] s[k]),
        end < s.len() ==> !in_number(s[end]),
    ensures
        number_end(s, i) == end,
    decreases end - i,
{
    if i < end {
        lemma_number_stops(s, i + 1, end);
    }
}

proof fn lemma_word(before: Seq<char>, w: Seq<char>, t: TokView, behind: Seq<char>)
    requires
        spells(w, t),
        behind.len() > 0 ==> white_space(behind[0]) || apart(t, behind[0]),
    ensures
        lexeme(before + w + behind, before.len() as int) == Lexeme::Token(
            t,
            (before.len() + w.len()) as int,
        ),
        w.len() > 0,
        !white_space(w[0]),
        !white_space(w.last()),
{
    let s = before + w + behind;
    let at = before.len() as int;
    let end = at + w.len();
    assert forall|k: int| 0 <= k < w.len() implies s[at + k] == w[k] by {}
    if behind.len() > 0 {
        assert(s[end] == behind[0]);
    }
    match t {
        TokView::Ident(name) => {
            assert forall|k: int| at + 1 <= k < end implies in_name(#[trigger] s[k]) by {
                assert(s[k] == w[k - at]);
            }
            lemma_name_stops(s, at + 1, end);
            assert(s.subrange(at, end) =~= w);
            assert(s[at] == w[0]);
            assert(in_name(w.last()));
        },
        TokView::Number(_) => {
            assert forall|k: int| at + 1 <= k < end implies in_number(#[trigger] s[k]) by {
                assert(s[k] == w[k - at]);
            }
            lemma_number_stops(s, at + 1, end);
            assert(s.subrange(at, end) =~= w);
            assert(s[at] == w[0]);
            if w.len() > 1 {
                assert(s[at + 1] == w[1]);
                assert(in_number(w[w.len() - 1]));
            }
        },
        TokView::Literal(text) => {
            law_quoted_literal(before, text, behind);
            assert(s =~= before + seq!['\''] + doubled_quotes(text) + seq!['\''] + behind);
            assert(w[0] == '\'');
            assert(w.last() == '\'');
        },
        _ => {
            assert(s[at] == w[0]);
            if w.len() > 1 {
                assert(s[at + 1] == w[1]);
            }
        },
    }
}

proof fn lemma_skip_blank(s: Seq<char>, i: int, n: int)
    requires
        0 <= i <= n <= s.len(),
        forall|k: int| i <= k < n ==> white_space(#[trigger] s[k]),
    ensures
        lexed(s, i) == lexed(s, n),
    decreases n - i,
{
    if i < n {
        lemma_skip_blank(s, i + 1, n);
    }
}

proof fn lemma_typed(
    before: Seq<char>,
    words: Seq<Seq<char>>,
    gaps: Seq<Seq<char>>,
    toks: Seq<TokView>,
)
    requires
        spelled(words, gaps, toks),
    ensures
        lexed(before + typed(words, gaps), before.len() as int) == Ok::<
            Seq<TokView>,
            crate::error::ErrorView,
        >(toks),
    decreases words.len(),
{
    let s = before + typed(words, gaps);
    let at = before.len() as int;
    if words.len() == 0 {
        assert(toks =~= Seq::empty());
    } else {
        let (w, g, t) = (words[0], gaps[0], toks[0]);
        let (ws, gs, ts) = (words.drop_first(), gaps.drop_first(), toks.drop_first());
        let rest = typed(ws, gs);
        let behind = g + rest;
        assert(spells(words[0], toks[0]));
        assert(blank(gaps[0]));
        assert forall|i: int| 0 <= i < ts.len() implies spells(ws[i], #[trigger] ts[i]) by {
            assert(toks[i + 1] == ts[i]);
            assert(words[i + 1] == ws[i]);
        }
        assert forall|i: int| 0 <= i < ts.len() implies blank(#[trigger] gs[i]) by {
            assert(gaps[i + 1] == gs[i]);
        }
        assert forall|i: int| 0 <= i < ts.len() - 1 && gs[i].len() == 0 implies apart(
            #[trigger] ts[i],
            ws[i + 1][0],
        ) by {
            assert(toks[i + 1] == ts[i]);
            assert(gaps[i + 1] == gs[i]);
            assert(words[i + 2] == ws[i + 1]);
        }
        if behind.len() > 0 {
            if g.len() > 0 {
                assert(behind[0] == g[0]);
                assert(white_space(g[0]));
            } else {
                assert(ws.len() > 0);
                assert(spells(ws[0], ts[0]));
                lemma_word(Seq::empty(), ws[0], ts[0], Seq::empty());
                assert(behind[0] == ws[0][0]);
                assert(words[1] == ws[0]);
                assert(apart(toks[0], words[1][0]));
            }
        }
        lemma_word(before, w, t, behind);
        assert(s =~= before + w + behind);
        let end = at + w.len();
        let next = before + w + g;
        lemma_typed(next, ws, gs, ts);
        assert(s =~= next + rest);
        assert forall|k: int| end <= k < end + g.len() implies white_space(#[trigger] s[k]) by {
            assert(s[k] == g[k - end]);
            assert(white_space(g[k - end]));
        }
        lemma_skip_blank(s, end, end + g.len());
        assert(seq![t] + ts =~= toks);
    }
}

/// A text of words with white space between them is read as its tokens.
pub proof fn law_words_are_read_as_tokens(
    words: Seq<Seq<char>>,
    gaps: Seq<Seq<char>>,
    toks: Seq<TokView>,
)
    requires
        spelled(words, gaps, toks),
    ensures
        lexed(typed(words, gaps), 0) == Ok::<Seq<TokView>, crate::error::ErrorView>(toks),
{
    lemma_typed(Seq::empty(), words, gaps, toks);
    assert(Seq::<char>::empty() + typed(words, gaps) =~= typed(words, gaps));
}

/// A word is this word of small letters, whatever letters of it are capitals.
pub open spec fn any_case(word: Seq<char>, small: Seq<char>) -> bool {
    &&& word.len() == small.len()
    &&& forall|i: int|
        0 <= i < word.len() ==> (#[trigger] word[i] == small[i] || ('A' <= word[i] && word[i] <= 'Z'
            && word[i] as u32 + 32 == small[i] as u32))
}

/// Only small letters.
spec fn all_small(s: Seq<char>) -> bool {
    forall|i: int| 0 <= i < s.len() ==> 'a' <= (#[trigger] s[i]) && s[i] <= 'z'
}

proof fn lemma_lower_char(c: char, small: char)
    requires
        'a' <= small && small <= 'z',
    ensures
        lower_char(c) == small <==> (c == small || ('A' <= c && c <= 'Z' && c as u32 + 32
            == small as u32)),
{
    if 'A' <= c && c <= 'Z' {
        vstd::utf8::char_u32_cast(small, small as u32);
    }
}

proof fn lemma_any_case(word: Seq<char>, small: Seq<char>)
    requires
        all_small(small),
    ensures
        lowered(word) == small <==> any_case(word, small),
{
    if any_case(word, small) {
        assert forall|i: int| 0 <= i < word.len() implies lowered(word)[i] == small[i] by {
            lemma_lower_char(word[i], small[i]);
            assert('a' <= small[i]);
        }
        assert(lowered(word) =~= small);
    }
    if lowered(word) == small {
        assert(lowered(word).len() == word.len());
        assert forall|i: int| 0 <= i < word.len() implies (#[trigger] word[i] == small[i] || ('A'
            <= word[i] && word[i] <= 'Z' && word[i] as u32 + 32 == small[i] as u32)) by {
            assert(lowered(word)[i] == lower_char(word[i]));
            assert('a' <= small[i]);
            lemma_lower_char(word[i], small[i]);
        }
    }
}

proof fn lemma_small_words()
    ensures
        all_small("not"@) && lowered("NOT"@) == "not"@,
        all_small("and"@) && lowered("AND"@) == "and"@,
        all_small("or"@) && lowered("OR"@) == "or"@,
        all_small("is"@) && lowered("IS"@) == "is"@,
        all_small("in"@) && lowered("IN"@) == "in"@,
        all_small("null"@) && lowered("NULL"@) == "null"@ && lowered("null"@) == "null"@,
        all_small("true"@) && lowered("true"@) == "true"@,
        all_small("false"@) && lowered("false"@) == "false"@,
        all_small("select"@) && lowered("SELECT"@) == "select"@,
        all_small("from"@) && lowered("FROM"@) == "from"@,
        all_small("where"@) && lowered("WHERE"@) == "where"@,
        "or"@.len() == 2 && "and"@.len() == 3 && "not"@.len() == 3 && "from"@.len() == 4,
        "where"@.len() == 5 && "select"@.len() == 6 && "is"@.len() == 2 && "in"@.len() == 2,
        "true"@.len() == 4 && "false"@.len() == 5 && "null"@.len() == 4,
        "is"@ != "in"@ && "true"@ != "null"@ && "not"@ != "and"@ && "null"@ != "not"@,
{
    reveal_strlit("not");
    reveal_strlit("NOT");
    reveal_strlit("and");
    reveal_strlit("AND");
    reveal_strlit("or");
    reveal_strlit("OR");
    reveal_strlit("is");
    reveal_strlit("IS");
    reveal_strlit("in");
    reveal_strlit("IN");
    reveal_strlit("null");
    reveal_strlit("NULL");
    reveal_strlit("true");
    reveal_strlit("false");
    reveal_strlit("select");
    reveal_strlit("SELECT");
    reveal_strlit("from");
    reveal_strlit("FROM");
    reveal_strlit("where");
    reveal_strlit("WHERE");
    assert(lowered("NOT"@) =~= "not"@);
    assert(lowered("AND"@) =~= "and"@);
    assert(lowered("OR"@) =~= "or"@);
    assert(lowered("IS"@) =~= "is"@);
    assert(lowered("IN"@) =~= "in"@);
    assert(lowered("NULL"@) =~= "null"@);
    assert(lowered("null"@) =~= "null"@);
    assert(lowered("true"@) =~= "true"@);
    assert(lowered("false"@) =~= "false"@);
    assert(lowered("SELECT"@) =~= "select"@);
    assert(lowered("FROM"@) =~= "from"@);
    assert(lowered("WHERE"@) =~= "where"@);
    assert("is"@[1] != "in"@[1]);
    assert("true"@[0] != "null"@[0]);
    assert("not"@[0] != "and"@[0]);
}

/// What a comparison asks of the value of a field against a constant.
pub enum Sign {
    /// `<`: below it.
    Below,
    /// `<=`: at most it.
    AtMost,
    /// `>`: above it.
    Above,
    /// `>=`: at least it.
    AtLeast,
    /// `=`: equal to it.
    Equal,
    /// `!=` or `<>`: not equal to it.
    Unequal,
}

/// The token of a sign.
pub open spec fn sign_token(sign: Sign) -> TokView {
    match sign {
        Sign::Below => TokView::Lt,
        Sign::AtMost => TokView::Lte,
        Sign::Above => TokView::Gt,
        Sign::AtLeast => TokView::Gte,
        Sign::Equal => TokView::Eq,
        Sign::Unequal => TokView::Ne,
    }
}

/// The test of a field that a sign stands for.
pub open spec fn sign_test(sign: Sign, value: JsonView) -> PredView {
    match sign {
        Sign::Below => PredView::Lt(value),
        Sign::AtMost => PredView::Lte(value),
        Sign::Above => PredView::Gt(value),
        Sign::AtLeast => PredView::Gte(value),
        Sign::Equal => PredView::Eq(value),
        Sign::Unequal => PredView::Ne(value),
    }
}

/// Integers stand in the relation of a sign.
pub open spec fn stand_in(sign: Sign, n: int, k: int) -> bool {
    match sign {
        Sign::Below => n < k,
        Sign::AtMost => n <= k,
        Sign::Above => n > k,
        Sign::AtLeast => n >= k,
        Sign::Equal => n == k,
        Sign::Unequal => n != k,
    }
}

/// A constant of a condition. The keywords are kept as they are written.
pub enum Constant {
    /// An integer.
    Integer(int),
    /// A quoted text.
    Text(Seq<char>),
    /// `TRUE` or `FALSE`.
    Truth(bool, Seq<char>),
    /// `NULL`.
    Null(Seq<char>),
}

/// The value of a constant.
pub open spec fn constant_value(c: Constant) -> JsonView {
    match c {
        Constant::Integer(k) => whole(k),
        Constant::Text(s) => JsonView::Text(s),
        Constant::Truth(b, _) => JsonView::Bool(b),
        Constant::Null(_) => JsonView::Null,
    }
}

/// An integer in decimal, with a sign before a negative one.
pub open spec fn integer_text(k: int) -> Seq<char> {
    if k < 0 {
        seq!['-'] + decimal((-k) as nat)
    } else {
        decimal(k as nat)
    }
}

/// The token of a constant.
pub open spec fn constant_token(c: Constant) -> TokView {
    match c {
        Constant::Integer(k) => TokView::Number(integer_text(k)),
        Constant::Text(s) => TokView::Literal(s),
        Constant::Truth(_, word) => TokView::Ident(word),
        Constant::Null(word) => TokView::Ident(word),
    }
}

/// A constant is well written.
pub open spec fn constant_ok(c: Constant) -> bool {
    match c {
        Constant::Integer(k) => i64::MIN <= k <= i64::MAX,
        Constant::Text(_) => true,
        Constant::Truth(true, word) => any_case(word, "true"@),
        Constant::Truth(false, word) => any_case(word, "false"@),
        Constant::Null(word) => any_case(word, "null"@),
    }
}

/// A condition. The keywords are kept as they are written.
pub enum Condition {
    /// A field against a constant.
    Compare { path: Seq<Seq<char>>, sign: Sign, value: Constant },
    /// A field against a list of constants.
    OneOf { path: Seq<Seq<char>>, word: Seq<char>, values: Seq<Constant> },
    /// `IS NULL`.
    Missing { path: Seq<Seq<char>>, is_word: Seq<char>, null_word: Seq<char> },
    /// `IS NOT NULL`.
    Given { path: Seq<Seq<char>>, is_word: Seq<char>, not_word: Seq<char>, null_word: Seq<char> },
    /// A condition in brackets.
    Grouped(Box<Condition>),
    /// `NOT`.
    Not { word: Seq<char>, inner: Box<Condition> },
    /// `AND`.
    Both { left: Box<Condition>, word: Seq<char>, right: Box<Condition> },
    /// `OR`.
    Either { left: Box<Condition>, word: Seq<char>, right: Box<Condition> },
}

/// The field that a path names.
pub open spec fn field_of(path: Seq<Seq<char>>) -> Seq<char> {
    joined(path, "."@)
}

/// Which documents a condition holds of.
pub open spec fn condition_holds(c: Condition, doc: JsonView) -> bool
    decreases c,
{
    match c {
        Condition::Compare { path, sign, value } => filter_matches(
            on_field(field_of(path), sign_test(sign, constant_value(value))),
            doc,
        ),
        Condition::OneOf { path, values, .. } => exists|i: int|
            0 <= i < values.len() && filter_matches(
                on_field(field_of(path), PredView::Eq(constant_value(#[trigger] values[i]))),
                doc,
            ),
        Condition::Missing { path, .. } => field_value(doc, field_of(path)) is None || field_value(
            doc,
            field_of(path),
        ) == Some(JsonView::Null),
        Condition::Given { path, .. } => field_value(doc, field_of(path)) is Some && field_value(
            doc,
            field_of(path),
        ) != Some(JsonView::Null),
        Condition::Grouped(inner) => condition_holds(*inner, doc),
        Condition::Not { inner, .. } => !condition_holds(*inner, doc),
        Condition::Both { left, right, .. } => condition_holds(*left, doc) && condition_holds(
            *right,
            doc,
        ),
        Condition::Either { left, right, .. } => condition_holds(*left, doc) || condition_holds(
            *right,
            doc,
        ),
    }
}

/// Names with dots between them.
pub open spec fn path_tokens(path: Seq<Seq<char>>) -> Seq<TokView> {
    Seq::new(
        (2 * path.len() - 1) as nat,
        |k: int|
            if k % 2 == 0 {
                TokView::Ident(path[k / 2])
            } else {
                TokView::Dot
            },
    )
}

/// Constants with commas between them and a bracket behind them.
pub open spec fn list_tokens(values: Seq<Constant>) -> Seq<TokView> {
    Seq::new(
        2 * values.len(),
        |k: int|
            if k % 2 == 0 {
                constant_token(values[k / 2])
            } else if k == 2 * values.len() - 1 {
                TokView::RParen
            } else {
                TokView::Comma
            },
    )
}

/// The tokens of a condition.
pub open spec fn condition_tokens(c: Condition) -> Seq<TokView>
    decreases c,
{
    match c {
        Condition::Compare { path, sign, value } => path_tokens(path) + seq![
            sign_token(sign),
            constant_token(value),
        ],
        Condition::OneOf { path, word, values } => path_tokens(path) + seq![
            TokView::Ident(word),
            TokView::LParen,
        ] + list_tokens(values),
        Condition::Missing { path, is_word, null_word } => path_tokens(path) + seq![
            TokView::Ident(is_word),
            TokView::Ident(null_word),
        ],
        Condition::Given { path, is_word, not_word, null_word } => path_tokens(path) + seq![
            TokView::Ident(is_word),
            TokView::Ident(not_word),
            TokView::Ident(null_word),
        ],
        Condition::Grouped(inner) => seq![TokView::LParen] + condition_tokens(*inner) + seq![
            TokView::RParen,
        ],
        Condition::Not { word, inner } => seq![TokView::Ident(word)] + condition_tokens(*inner),
        Condition::Both { left, word, right } => condition_tokens(*left) + seq![
            TokView::Ident(word),
        ] + condition_tokens(*right),
        Condition::Either { left, word, right } => condition_tokens(*left) + seq![
            TokView::Ident(word),
        ] + condition_tokens(*right),
    }
}

/// A path that can open a condition: its first name is none of the words that
/// a query or a condition can begin with.
pub open spec fn path_ok(path: Seq<Seq<char>>) -> bool {
    &&& path.len() > 0
    &&& !any_case(path[0], "not"@)
    &&& !any_case(path[0], "select"@)
    &&& !any_case(path[0], "where"@)
}

/// A condition is well written. AND joins closer than OR, and NOT closer than
/// both; what should be read otherwise stands in brackets.
pub open spec fn condition_ok(c: Condition) -> bool
    decreases c,
{
    match c {
        Condition::Compare { path, value, .. } => path_ok(path) && constant_ok(value),
        Condition::OneOf { path, word, values } => {
            &&& path_ok(path)
            &&& any_case(word, "in"@)
            &&& values.len() > 0
            &&& forall|i: int| 0 <= i < values.len() ==> constant_ok(#[trigger] values[i])
        },
        Condition::Missing { path, is_word, null_word } => {
            &&& path_ok(path)
            &&& any_case(is_word, "is"@)
            &&& any_case(null_word, "null"@)
        },
        Condition::Given { path, is_word, not_word, null_word } => {
            &&& path_ok(path)
            &&& any_case(is_word, "is"@)
            &&& any_case(not_word, "not"@)
            &&& any_case(null_word, "null"@)
        },
        Condition::Grouped(inner) => condition_ok(*inner),
        Condition::Not { word, inner } => {
            &&& any_case(word, "not"@)
            &&& !(*inner is Both) && !(*inner is Either)
            &&& condition_ok(*inner)
        },
        Condition::Both { left, word, right } => {
            &&& any_case(word, "and"@)
            &&& !(*left is Either) && !(*right is Both) && !(*right is Either)
            &&& condition_ok(*left) && condition_ok(*right)
        },
        Condition::Either { left, word, right } => {
            &&& any_case(word, "or"@)
            &&& !(*right is Either)
            &&& condition_ok(*left) && condition_ok(*right)
        },
    }
}

/// Tokens stand in a list at a place.
spec fn stands(toks: Seq<TokView>, i: int, part: Seq<TokView>) -> bool {
    &&& 0 <= i
    &&& i + part.len() <= toks.len()
    &&& forall|k: int| 0 <= k < part.len() ==> toks[i + k] == #[trigger] part[k]
}

proof fn lemma_stands_split(toks: Seq<TokView>, i: int, a: Seq<TokView>, b: Seq<TokView>)
    requires
        stands(toks, i, a + b),
    ensures
        stands(toks, i, a),
        stands(toks, i + a.len(), b),
{
    assert forall|k: int| 0 <= k < a.len() implies toks[i + k] == #[trigger] a[k] by {
        assert((a + b)[k] == a[k]);
    }
    assert forall|k: int| 0 <= k < b.len() implies toks[i + a.len() + k] == #[trigger] b[k] by {
        assert((a + b)[a.len() + k] == b[k]);
        assert(toks[i + (a.len() + k)] == (a + b)[a.len() + k]);
    }
}

proof fn lemma_keyword(toks: Seq<TokView>, i: int, word: Seq<char>)
    requires
        0 <= i < toks.len(),
        toks[i] == TokView::Ident(word),
    ensures
        keyword_at(toks, i, "NOT"@) <==> any_case(word, "not"@),
        keyword_at(toks, i, "AND"@) <==> any_case(word, "and"@),
        keyword_at(toks, i, "OR"@) <==> any_case(word, "or"@),
        keyword_at(toks, i, "IS"@) <==> any_case(word, "is"@),
        keyword_at(toks, i, "IN"@) <==> any_case(word, "in"@),
        keyword_at(toks, i, "NULL"@) <==> any_case(word, "null"@),
        keyword_at(toks, i, "null"@) <==> any_case(word, "null"@),
        keyword_at(toks, i, "true"@) <==> any_case(word, "true"@),
        keyword_at(toks, i, "false"@) <==> any_case(word, "false"@),
        keyword_at(toks, i, "SELECT"@) <==> any_case(word, "select"@),
        keyword_at(toks, i, "FROM"@) <==> any_case(word, "from"@),
        keyword_at(toks, i, "WHERE"@) <==> any_case(word, "where"@),
        any_case(word, "is"@) ==> !any_case(word, "in"@),
        any_case(word, "or"@) ==> !any_case(word, "and"@),
        any_case(word, "null"@) ==> !any_case(word, "true"@) && !any_case(word, "false"@)
            && !any_case(word, "not"@),
        any_case(word, "false"@) ==> !any_case(word, "true"@),
        any_case(word, "where"@) ==> !any_case(word, "select"@) && !any_case(word, "from"@),
        any_case(word, "from"@) ==> !any_case(word, "where"@),
{
    lemma_small_words();
    lemma_any_case(word, "not"@);
    lemma_any_case(word, "and"@);
    lemma_any_case(word, "or"@);
    lemma_any_case(word, "is"@);
    lemma_any_case(word, "in"@);
    lemma_any_case(word, "null"@);
    lemma_any_case(word, "true"@);
    lemma_any_case(word, "false"@);
    lemma_any_case(word, "select"@);
    lemma_any_case(word, "from"@);
    lemma_any_case(word, "where"@);
}

proof fn lemma_decimal(n: nat)
    ensures
        digits_value(decimal(n)) == Some(n as int),
        decimal(n).len() > 0,
        forall|k: int| 0 <= k < decimal(n).len() ==> is_figure(#[trigger] decimal(n)[k]),
    decreases n,
{
    let d = decimal(n);
    let low = (n % 10) as nat;
    assert('0' <= digit(low) && digit(low) <= '9' && digit(low) as int - '0' as int == low);
    if n < 10 {
        assert(d.drop_last() =~= Seq::empty());
        assert(digits_value(d.drop_last()) == Some(0int));
    } else {
        lemma_decimal(n / 10);
        assert(d.drop_last() =~= decimal(n / 10));
        assert forall|k: int| 0 <= k < d.len() implies is_figure(#[trigger] d[k]) by {
            if k < d.len() - 1 {
                assert(decimal(n / 10)[k] == d[k]);
            }
        }
    }
}

/// An integer in decimal is a number, and is read as that integer.
pub proof fn law_integer_is_read_back(k: int)
    requires
        i64::MIN <= k <= i64::MAX,
    ensures
        is_number(integer_text(k)),
        integer_in(integer_text(k)) == Some(k as i64),
        number_value(integer_text(k)) == Ok::<JsonView, crate::error::ErrorView>(whole(k)),
{
    let n = (if k < 0 {
        -k
    } else {
        k
    }) as nat;
    let t = integer_text(k);
    lemma_decimal(n);
    assert(is_figure(decimal(n)[0]));
    if k < 0 {
        assert(t.drop_first() =~= decimal(n));
        assert(t[1] == decimal(n)[0]);
        assert forall|i: int| 1 <= i < t.len() implies in_number(#[trigger] t[i]) by {
            assert(t[i] == decimal(n)[i - 1]);
        }
    }
}

proof fn lemma_constant(toks: Seq<TokView>, i: int, c: Constant)
    requires
        0 <= i < toks.len(),
        toks[i] == constant_token(c),
        constant_ok(c),
    ensures
        value_at(toks, i) == Ok::<JsonView, crate::error::ErrorView>(constant_value(c)),
{
    match c {
        Constant::Integer(k) => {
            law_integer_is_read_back(k);
        },
        Constant::Text(_) => {},
        Constant::Truth(_, word) => {
            lemma_keyword(toks, i, word);
        },
        Constant::Null(word) => {
            lemma_keyword(toks, i, word);
        },
    }
}

proof fn lemma_path_tail(toks: Seq<TokView>, i: int, path: Seq<Seq<char>>, m: int)
    requires
        path.len() > 0,
        stands(toks, i, path_tokens(path)),
        !token_at(toks, i + 2 * path.len() - 1, TokView::Dot),
        1 <= m <= path.len(),
    ensures
        path_tail(toks, path.take(m), i + 2 * m - 1) == Ok::<
            (Seq<Seq<char>>, int),
            crate::error::ErrorView,
        >((path, i + 2 * path.len() - 1)),
    decreases path.len() - m,
{
    let all = path_tokens(path);
    if m < path.len() {
        assert(toks[i + (2 * m - 1)] == all[2 * m - 1]);
        assert(toks[i + 2 * m] == all[2 * m]);
        assert((2 * m) / 2 == m);
        assert((2 * m - 1) % 2 == 1);
        assert(path.take(m).push(path[m]) =~= path.take(m + 1));
        lemma_path_tail(toks, i, path, m + 1);
    } else {
        assert(path.take(m) =~= path);
    }
}

proof fn lemma_path(toks: Seq<TokView>, i: int, path: Seq<Seq<char>>)
    requires
        path.len() > 0,
        stands(toks, i, path_tokens(path)),
        !token_at(toks, i + 2 * path.len() - 1, TokView::Dot),
    ensures
        path_at(toks, i) == Ok::<(Seq<char>, int), crate::error::ErrorView>(
            (field_of(path), i + 2 * path.len() - 1),
        ),
        toks[i] == TokView::Ident(path[0]),
{
    lemma_path_tail(toks, i, path, 1);
    assert(path.take(1) =~= seq![path[0]]);
    assert(toks[i + 0] == path_tokens(path)[0]);
}

/// The values of constants.
spec fn values_of(values: Seq<Constant>) -> Seq<JsonView> {
    Seq::new(values.len(), |i: int| constant_value(values[i]))
}

proof fn lemma_list(toks: Seq<TokView>, i: int, values: Seq<Constant>, m: int)
    requires
        values.len() > 0,
        stands(toks, i, list_tokens(values)),
        forall|k: int| 0 <= k < values.len() ==> constant_ok(#[trigger] values[k]),
        0 <= m < values.len(),
    ensures
        list_at(toks, values_of(values).take(m), i + 2 * m) == Ok::<
            (Seq<JsonView>, int),
            crate::error::ErrorView,
        >((values_of(values), i + 2 * values.len())),
    decreases values.len() - m,
{
    let all = list_tokens(values);
    assert(toks[i + 2 * m] == all[2 * m]);
    assert((2 * m) / 2 == m);
    assert(toks[i + (2 * m + 1)] == all[2 * m + 1]);
    assert((2 * m + 1) % 2 == 1);
    assert(constant_ok(values[m]));
    lemma_constant(toks, i + 2 * m, values[m]);
    let next = values_of(values).take(m).push(constant_value(values[m]));
    assert(next =~= values_of(values).take(m + 1));
    if m + 1 < values.len() {
        lemma_list(toks, i, values, m + 1);
    } else {
        assert(values_of(values).take(m + 1) =~= values_of(values));
    }
}

/// The filter that a condition is compiled to.
spec fn condition_filter(c: Condition) -> FilterView
    decreases c,
{
    match c {
        Condition::Compare { path, sign, value } => on_field(
            field_of(path),
            sign_test(sign, constant_value(value)),
        ),
        Condition::OneOf { path, values, .. } => on_field(
            field_of(path),
            PredView::In(values_of(values)),
        ),
        Condition::Missing { path, .. } => null_test(field_of(path)),
        Condition::Given { path, .. } => FilterView::Not(Box::new(null_test(field_of(path)))),
        Condition::Grouped(inner) => condition_filter(*inner),
        Condition::Not { inner, .. } => FilterView::Not(Box::new(condition_filter(*inner))),
        Condition::Both { left, right, .. } => conjunction(
            seq![condition_filter(*left), condition_filter(*right)],
        ),
        Condition::Either { left, right, .. } => disjunction(
            seq![condition_filter(*left), condition_filter(*right)],
        ),
    }
}

proof fn lemma_filter_holds(c: Condition, doc: JsonView)
    ensures
        filter_matches(condition_filter(c), doc) <==> condition_holds(c, doc),
    decreases c,
{
    match c {
        Condition::Compare { .. } => {},
        Condition::OneOf { path, values, .. } => {
            let list = values_of(values);
            match field_value(doc, field_of(path)) {
                Some(v) => {
                    if filter_matches(condition_filter(c), doc) {
                        let i = choose|i: int|
                            0 <= i < list.len() && crate::json::json_same(v, #[trigger] list[i]);
                        assert(list[i] == constant_value(values[i]));
                        assert(filter_matches(
                            on_field(field_of(path), PredView::Eq(constant_value(values[i]))),
                            doc,
                        ));
                    }
                    if condition_holds(c, doc) {
                        let i = choose|i: int|
                            0 <= i < values.len() && filter_matches(
                                on_field(
                                    field_of(path),
                                    PredView::Eq(constant_value(#[trigger] values[i])),
                                ),
                                doc,
                            );
                        assert(list[i] == constant_value(values[i]));
                    }
                },
                None => {},
            }
        },
        Condition::Missing { path, .. } => {
            law_null_test(field_of(path), doc);
        },
        Condition::Given { path, .. } => {
            law_null_test(field_of(path), doc);
            law_filters_combine(Seq::empty(), null_test(field_of(path)), doc);
        },
        Condition::Grouped(inner) => {
            lemma_filter_holds(*inner, doc);
        },
        Condition::Not { inner, .. } => {
            lemma_filter_holds(*inner, doc);
            law_filters_combine(Seq::empty(), condition_filter(*inner), doc);
        },
        Condition::Both { left, right, .. } => {
            lemma_filter_holds(*left, doc);
            lemma_filter_holds(*right, doc);
            let parts = seq![condition_filter(*left), condition_filter(*right)];
            law_filters_combine(parts, FilterView::Always, doc);
            assert(filter_matches(parts[0], doc) == condition_holds(*left, doc));
            assert(filter_matches(parts[1], doc) == condition_holds(*right, doc));
        },
        Condition::Either { left, right, .. } => {
            lemma_filter_holds(*left, doc);
            lemma_filter_holds(*right, doc);
            let parts = seq![condition_filter(*left), condition_filter(*right)];
            law_filters_combine(parts, FilterView::Always, doc);
            assert(filter_matches(parts[0], doc) == condition_holds(*left, doc));
            assert(filter_matches(parts[1], doc) == condition_holds(*right, doc));
        },
    }
}

proof fn lemma_tokens_nonempty(c: Condition)
    requires
        condition_ok(c),
    ensures
        condition_tokens(c).len() > 0,
    decreases c,
{
    match c {
        Condition::Both { left, .. } => lemma_tokens_nonempty(*left),
        Condition::Either { left, .. } => lemma_tokens_nonempty(*left),
        _ => {},
    }
}

proof fn lemma_tested(toks: Seq<TokView>, i: int, path: Seq<Seq<char>>)
    requires
        path_ok(path),
        stands(toks, i, path_tokens(path)),
        !token_at(toks, i + 2 * path.len() - 1, TokView::Dot),
    ensures
        not_at(toks, i) == test_at(toks, field_of(path), i + 2 * path.len() - 1),
{
    lemma_path(toks, i, path);
    lemma_keyword(toks, i, path[0]);
    assert(primary_at(toks, i) == test_at(toks, field_of(path), i + 2 * path.len() - 1));
}

/// A condition is read where it stands, without looking behind it.
spec fn read_at(toks: Seq<TokView>, i: int, c: Condition) -> bool {
    not_at(toks, i) == Ok::<(FilterView, int), crate::error::ErrorView>(
        (condition_filter(c), i + condition_tokens(c).len()),
    )
}

proof fn lemma_compare(
    toks: Seq<TokView>,
    i: int,
    path: Seq<Seq<char>>,
    sign: Sign,
    value: Constant,
)
    requires
        path_ok(path) && constant_ok(value),
        stands(toks, i, condition_tokens(Condition::Compare { path, sign, value })),
    ensures
        read_at(toks, i, Condition::Compare { path, sign, value }),
{
    let names = path_tokens(path);
    let tail = seq![sign_token(sign), constant_token(value)];
    lemma_stands_split(toks, i, names, tail);
    let j = i + names.len();
    assert(toks[j + 0] == tail[0]);
    assert(toks[j + 1] == tail[1]);
    lemma_tested(toks, i, path);
    lemma_constant(toks, j + 1, value);
    let v = constant_value(value);
    assert(comparison(toks[j], v) == Some(sign_test(sign, v)));
    assert(comparison(toks[j], JsonView::Null) is Some);
}

proof fn lemma_one_of(
    toks: Seq<TokView>,
    i: int,
    path: Seq<Seq<char>>,
    word: Seq<char>,
    values: Seq<Constant>,
)
    requires
        condition_ok(Condition::OneOf { path, word, values }),
        stands(toks, i, condition_tokens(Condition::OneOf { path, word, values })),
    ensures
        read_at(toks, i, Condition::OneOf { path, word, values }),
{
    let names = path_tokens(path);
    let open = seq![TokView::Ident(word), TokView::LParen];
    lemma_stands_split(toks, i, names + open, list_tokens(values));
    lemma_stands_split(toks, i, names, open);
    let j = i + names.len();
    assert(toks[j + 0] == open[0]);
    assert(toks[j + 1] == open[1]);
    lemma_tested(toks, i, path);
    lemma_keyword(toks, j, word);
    lemma_list(toks, j + 2, values, 0);
    assert(values_of(values).take(0) =~= Seq::empty());
}

proof fn lemma_missing(
    toks: Seq<TokView>,
    i: int,
    path: Seq<Seq<char>>,
    is_word: Seq<char>,
    null_word: Seq<char>,
)
    requires
        condition_ok(Condition::Missing { path, is_word, null_word }),
        stands(toks, i, condition_tokens(Condition::Missing { path, is_word, null_word })),
    ensures
        read_at(toks, i, Condition::Missing { path, is_word, null_word }),
{
    let names = path_tokens(path);
    let tail = seq![TokView::Ident(is_word), TokView::Ident(null_word)];
    lemma_stands_split(toks, i, names, tail);
    let j = i + names.len();
    assert(toks[j + 0] == tail[0]);
    assert(toks[j + 1] == tail[1]);
    lemma_tested(toks, i, path);
    lemma_keyword(toks, j, is_word);
    lemma_keyword(toks, j + 1, null_word);
}

proof fn lemma_given(
    toks: Seq<TokView>,
    i: int,
    path: Seq<Seq<char>>,
    is_word: Seq<char>,
    not_word: Seq<char>,
    null_word: Seq<char>,
)
    requires
        condition_ok(Condition::Given { path, is_word, not_word, null_word }),
        stands(toks, i, condition_tokens(Condition::Given { path, is_word, not_word, null_word })),
    ensures
        read_at(toks, i, Condition::Given { path, is_word, not_word, null_word }),
{
    let names = path_tokens(path);
    let tail = seq![
        TokView::Ident(is_word),
        TokView::Ident(not_word),
        TokView::Ident(null_word),
    ];
    lemma_stands_split(toks, i, names, tail);
    let j = i + names.len();
    assert(toks[j + 0] == tail[0]);
    assert(toks[j + 1] == tail[1]);
    assert(toks[j + 2] == tail[2]);
    lemma_tested(toks, i, path);
    lemma_keyword(toks, j, is_word);
    lemma_keyword(toks, j + 1, not_word);
    lemma_keyword(toks, j + 2, null_word);
}

proof fn lemma_not_at(toks: Seq<TokView>, i: int, c: Condition)
    requires
        !(c is Both) && !(c is Either),
        condition_ok(c),
        stands(toks, i, condition_tokens(c)),
    ensures
        not_at(toks, i) == Ok::<(FilterView, int), crate::error::ErrorView>(
            (condition_filter(c), i + condition_tokens(c).len()),
        ),
    decreases c, 0int,
{
    match c {
        Condition::Grouped(inner) => {
            let open = seq![TokView::LParen];
            let body = condition_tokens(*inner);
            let close = seq![TokView::RParen];
            lemma_stands_split(toks, i, open + body, close);
            lemma_stands_split(toks, i, open, body);
            let end = i + 1 + body.len();
            assert(toks[i + 0] == open[0]);
            assert(toks[end + 0] == close[0]);
            lemma_or_at(toks, i + 1, *inner);
            assert(primary_at(toks, i) == Ok::<(FilterView, int), crate::error::ErrorView>(
                (condition_filter(*inner), end + 1),
            ));
            assert(!keyword_at(toks, i, "NOT"@));
        },
        Condition::Not { word, inner } => {
            let open = seq![TokView::Ident(word)];
            lemma_stands_split(toks, i, open, condition_tokens(*inner));
            assert(toks[i + 0] == open[0]);
            lemma_keyword(toks, i, word);
            lemma_not_at(toks, i + 1, *inner);
        },
        Condition::Compare { path, sign, value } => {
            lemma_compare(toks, i, path, sign, value);
        },
        Condition::OneOf { path, word, values } => {
            lemma_one_of(toks, i, path, word, values);
        },
        Condition::Missing { path, is_word, null_word } => {
            lemma_missing(toks, i, path, is_word, null_word);
        },
        Condition::Given { path, is_word, not_word, null_word } => {
            lemma_given(toks, i, path, is_word, not_word, null_word);
        },
        _ => {},
    }
}

proof fn lemma_and_at(toks: Seq<TokView>, i: int, c: Condition)
    requires
        !(c is Either),
        condition_ok(c),
        stands(toks, i, condition_tokens(c)),
    ensures
        and_at(toks, i) == and_tail(toks, condition_filter(c), i + condition_tokens(c).len()),
    decreases c, 1int,
{
    lemma_tokens_nonempty(c);
    match c {
        Condition::Both { left, word, right } => {
            let (a, b) = (condition_tokens(*left), condition_tokens(*right));
            let mid = seq![TokView::Ident(word)];
            lemma_stands_split(toks, i, a + mid, b);
            lemma_stands_split(toks, i, a, mid);
            let j = i + a.len();
            assert(toks[j + 0] == mid[0]);
            lemma_keyword(toks, j, word);
            lemma_and_at(toks, i, *left);
            lemma_not_at(toks, j + 1, *right);
        },
        _ => {
            lemma_not_at(toks, i, c);
        },
    }
}

proof fn lemma_or_tail(toks: Seq<TokView>, i: int, c: Condition)
    requires
        condition_ok(c),
        stands(toks, i, condition_tokens(c)),
        !keyword_at(toks, i + condition_tokens(c).len(), "AND"@),
    ensures
        or_at(toks, i) == or_tail(toks, condition_filter(c), i + condition_tokens(c).len()),
    decreases c, 2int,
{
    lemma_tokens_nonempty(c);
    match c {
        Condition::Either { left, word, right } => {
            let (a, b) = (condition_tokens(*left), condition_tokens(*right));
            let mid = seq![TokView::Ident(word)];
            lemma_stands_split(toks, i, a + mid, b);
            lemma_stands_split(toks, i, a, mid);
            let j = i + a.len();
            assert(toks[j + 0] == mid[0]);
            lemma_keyword(toks, j, word);
            lemma_or_tail(toks, i, *left);
            lemma_and_at(toks, j + 1, *right);
            lemma_tokens_nonempty(*right);
        },
        _ => {
            lemma_and_at(toks, i, c);
        },
    }
}

proof fn lemma_or_at(toks: Seq<TokView>, i: int, c: Condition)
    requires
        condition_ok(c),
        stands(toks, i, condition_tokens(c)),
        !keyword_at(toks, i + condition_tokens(c).len(), "AND"@),
        !keyword_at(toks, i + condition_tokens(c).len(), "OR"@),
    ensures
        or_at(toks, i) == Ok::<(FilterView, int), crate::error::ErrorView>(
            (condition_filter(c), i + condition_tokens(c).len()),
        ),
    decreases c, 3int,
{
    lemma_or_tail(toks, i, c);
}

/// A query. The keywords are kept as they are written.
pub enum Query {
    /// A condition, with `WHERE` before it or not.
    Bare { where_word: Option<Seq<char>>, condition: Condition },
    /// `SELECT` with columns, or `*` for none; then `FROM` with a name and
    /// `WHERE` with a condition, where they are given.
    Select {
        word: Seq<char>,
        columns: Option<Seq<Seq<Seq<char>>>>,
        source: Option<(Seq<char>, Seq<Seq<char>>)>,
        condition: Option<(Seq<char>, Condition)>,
    },
}

/// The columns behind the first one, each with a comma before it.
pub open spec fn more_columns(columns: Seq<Seq<Seq<char>>>) -> Seq<TokView>
    decreases columns.len(),
{
    if columns.len() == 0 {
        Seq::empty()
    } else {
        seq![TokView::Comma] + path_tokens(columns[0]) + more_columns(columns.drop_first())
    }
}

/// The tokens of what is selected.
pub open spec fn column_tokens(columns: Option<Seq<Seq<Seq<char>>>>) -> Seq<TokView> {
    match columns {
        None => seq![TokView::Star],
        Some(cols) => path_tokens(cols[0]) + more_columns(cols.drop_first()),
    }
}

/// The tokens of the source.
pub open spec fn source_tokens(source: Option<(Seq<char>, Seq<Seq<char>>)>) -> Seq<TokView> {
    match source {
        None => Seq::empty(),
        Some((word, name)) => seq![TokView::Ident(word)] + path_tokens(name),
    }
}

/// The tokens of the condition.
pub open spec fn where_tokens(condition: Option<(Seq<char>, Condition)>) -> Seq<TokView> {
    match condition {
        None => Seq::empty(),
        Some((word, c)) => seq![TokView::Ident(word)] + condition_tokens(c),
    }
}

/// The tokens of a query.
pub open spec fn query_tokens(q: Query) -> Seq<TokView> {
    match q {
        Query::Bare { where_word: None, condition } => condition_tokens(condition),
        Query::Bare { where_word: Some(word), condition } => seq![TokView::Ident(word)]
            + condition_tokens(condition),
        Query::Select { word, columns, source, condition } => seq![TokView::Ident(word)]
            + column_tokens(columns) + source_tokens(source) + where_tokens(condition),
    }
}

/// A query is well written.
pub open spec fn query_ok(q: Query) -> bool {
    match q {
        Query::Bare { where_word, condition } => {
            &&& where_word is Some ==> any_case(where_word->0, "where"@)
            &&& condition_ok(condition)
        },
        Query::Select { word, columns, source, condition } => {
            &&& any_case(word, "select"@)
            &&& columns is Some ==> columns->0.len() > 0 && forall|i: int|
                0 <= i < columns->0.len() ==> (#[trigger] columns->0[i]).len() > 0
            &&& source is Some ==> any_case((source->0).0, "from"@) && (source->0).1.len() > 0
            &&& condition is Some ==> any_case((condition->0).0, "where"@) && condition_ok(
                (condition->0).1,
            )
        },
    }
}

/// Which documents a query asks for; without a condition, every one.
pub open spec fn query_holds(q: Query, doc: JsonView) -> bool {
    match q {
        Query::Bare { condition, .. } => condition_holds(condition, doc),
        Query::Select { condition, .. } => condition is None || condition_holds(
            (condition->0).1,
            doc,
        ),
    }
}

/// Which fields a query asks for; none named means whole documents.
pub open spec fn query_columns(q: Query) -> Option<Seq<Seq<char>>> {
    match q {
        Query::Bare { .. } => None,
        Query::Select { columns: None, .. } => None,
        Query::Select { columns: Some(cols), .. } => Some(
            Seq::new(cols.len(), |i: int| field_of(cols[i])),
        ),
    }
}

/// The fields of columns.
spec fn fields_of(columns: Seq<Seq<Seq<char>>>) -> Seq<Seq<char>> {
    Seq::new(columns.len(), |i: int| field_of(columns[i]))
}

/// Neither a dot nor a comma stands at a place.
spec fn ends_path(toks: Seq<TokView>, i: int) -> bool {
    !token_at(toks, i, TokView::Dot) && !token_at(toks, i, TokView::Comma)
}

proof fn lemma_more_columns(
    toks: Seq<TokView>,
    done: Seq<Seq<char>>,
    i: int,
    columns: Seq<Seq<Seq<char>>>,
)
    requires
        stands(toks, i, more_columns(columns)),
        forall|k: int| 0 <= k < columns.len() ==> (#[trigger] columns[k]).len() > 0,
        ends_path(toks, i + more_columns(columns).len()),
    ensures
        column_tail(toks, done, i) == Ok::<(Seq<Seq<char>>, int), crate::error::ErrorView>(
            (done + fields_of(columns), i + more_columns(columns).len()),
        ),
    decreases columns.len(),
{
    if columns.len() == 0 {
        assert(done + fields_of(columns) =~= done);
    } else {
        let comma = seq![TokView::Comma];
        let first = path_tokens(columns[0]);
        let later = columns.drop_first();
        let rest = more_columns(later);
        lemma_stands_split(toks, i, comma + first, rest);
        lemma_stands_split(toks, i, comma, first);
        assert(toks[i + 0] == comma[0]);
        assert(columns[0].len() > 0);
        let j = i + 1 + first.len();
        if later.len() > 0 {
            assert(toks[j + 0] == rest[0]);
        } else {
            assert(rest.len() == 0);
        }
        lemma_path(toks, i + 1, columns[0]);
        assert forall|k: int| 0 <= k < later.len() implies (#[trigger] later[k]).len() > 0 by {
            assert(later[k] == columns[k + 1]);
        }
        let next = done.push(field_of(columns[0]));
        lemma_more_columns(toks, next, j, later);
        assert(next + fields_of(later) =~= done + fields_of(columns));
    }
}

proof fn lemma_selection(toks: Seq<TokView>, i: int, columns: Option<Seq<Seq<Seq<char>>>>)
    requires
        stands(toks, i, column_tokens(columns)),
        columns is Some ==> columns->0.len() > 0 && forall|k: int|
            0 <= k < columns->0.len() ==> (#[trigger] columns->0[k]).len() > 0,
        ends_path(toks, i + column_tokens(columns).len()),
    ensures
        selection_at(toks, i) == Ok::<(Option<Seq<Seq<char>>>, int), crate::error::ErrorView>(
            (
                match columns {
                    None => None,
                    Some(cols) => Some(fields_of(cols)),
                },
                i + column_tokens(columns).len(),
            ),
        ),
{
    match columns {
        None => {
            assert(toks[i + 0] == column_tokens(columns)[0]);
        },
        Some(cols) => {
            let first = path_tokens(cols[0]);
            let later = cols.drop_first();
            let rest = more_columns(later);
            lemma_stands_split(toks, i, first, rest);
            assert(cols[0].len() > 0);
            let j = i + first.len();
            if later.len() > 0 {
                assert(toks[j + 0] == rest[0]);
            } else {
                assert(rest.len() == 0);
            }
            lemma_path(toks, i, cols[0]);
            assert forall|k: int| 0 <= k < later.len() implies (#[trigger] later[k]).len() > 0 by {
                assert(later[k] == cols[k + 1]);
            }
            lemma_more_columns(toks, seq![field_of(cols[0])], j, later);
            assert(seq![field_of(cols[0])] + fields_of(later) =~= fields_of(cols));
            assert(toks[i] is Ident);
        },
    }
}

/// The condition of a query as a filter.
spec fn query_filter(q: Query) -> FilterView {
    match q {
        Query::Bare { condition, .. } => condition_filter(condition),
        Query::Select { condition: None, .. } => FilterView::Always,
        Query::Select { condition: Some((_, c)), .. } => condition_filter(c),
    }
}

proof fn lemma_where(toks: Seq<TokView>, i: int, condition: Option<(Seq<char>, Condition)>)
    requires
        stands(toks, i, where_tokens(condition)),
        i + where_tokens(condition).len() == toks.len(),
        condition is Some ==> any_case((condition->0).0, "where"@) && condition_ok(
            (condition->0).1,
        ),
    ensures
        condition_at(toks, i) == Ok::<(Option<FilterView>, int), crate::error::ErrorView>(
            (
                match condition {
                    None => None,
                    Some((_, c)) => Some(condition_filter(c)),
                },
                toks.len() as int,
            ),
        ),
        ends_path(toks, i),
        !keyword_at(toks, i, "FROM"@),
{
    match condition {
        None => {},
        Some((word, c)) => {
            let open = seq![TokView::Ident(word)];
            lemma_stands_split(toks, i, open, condition_tokens(c));
            assert(toks[i + 0] == open[0]);
            lemma_keyword(toks, i, word);
            lemma_or_at(toks, i + 1, c);
        },
    }
}

proof fn lemma_source(
    toks: Seq<TokView>,
    i: int,
    source: Option<(Seq<char>, Seq<Seq<char>>)>,
)
    requires
        stands(toks, i, source_tokens(source)),
        source is Some ==> any_case((source->0).0, "from"@) && (source->0).1.len() > 0,
        ends_path(toks, i + source_tokens(source).len()),
        !keyword_at(toks, i + source_tokens(source).len(), "FROM"@),
    ensures
        source_at(toks, i) == Ok::<(Option<Seq<char>>, int), crate::error::ErrorView>(
            (
                match source {
                    None => None,
                    Some((_, name)) => Some(field_of(name)),
                },
                i + source_tokens(source).len(),
            ),
        ),
        ends_path(toks, i),
{
    match source {
        None => {},
        Some((word, name)) => {
            let open = seq![TokView::Ident(word)];
            lemma_stands_split(toks, i, open, path_tokens(name));
            assert(toks[i + 0] == open[0]);
            lemma_keyword(toks, i, word);
            lemma_path(toks, i + 1, name);
        },
    }
}

/// The first token of a condition is no word that a query begins with.
proof fn lemma_begins(toks: Seq<TokView>, i: int, c: Condition)
    requires
        condition_ok(c),
        stands(toks, i, condition_tokens(c)),
    ensures
        !keyword_at(toks, i, "SELECT"@),
        !keyword_at(toks, i, "WHERE"@),
    decreases c,
{
    match c {
        Condition::Grouped(inner) => {
            assert(toks[i + 0] == condition_tokens(c)[0]);
        },
        Condition::Not { word, inner } => {
            assert(toks[i + 0] == condition_tokens(c)[0]);
            lemma_keyword(toks, i, word);
            lemma_small_words();
        },
        Condition::Both { left, word, right } => {
            lemma_stands_split(
                toks,
                i,
                condition_tokens(*left) + seq![TokView::Ident(word)],
                condition_tokens(*right),
            );
            lemma_stands_split(toks, i, condition_tokens(*left), seq![TokView::Ident(word)]);
            lemma_begins(toks, i, *left);
        },
        Condition::Either { left, word, right } => {
            lemma_stands_split(
                toks,
                i,
                condition_tokens(*left) + seq![TokView::Ident(word)],
                condition_tokens(*right),
            );
            lemma_stands_split(toks, i, condition_tokens(*left), seq![TokView::Ident(word)]);
            lemma_begins(toks, i, *left);
        },
        Condition::Compare { path, .. } => {
            assert(condition_tokens(c)[0] == path_tokens(path)[0]);
            assert(toks[i + 0] == condition_tokens(c)[0]);
            lemma_keyword(toks, i, path[0]);
        },
        Condition::OneOf { path, .. } => {
            assert(condition_tokens(c)[0] == path_tokens(path)[0]);
            assert(toks[i + 0] == condition_tokens(c)[0]);
            lemma_keyword(toks, i, path[0]);
        },
        Condition::Missing { path, .. } => {
            assert(condition_tokens(c)[0] == path_tokens(path)[0]);
            assert(toks[i + 0] == condition_tokens(c)[0]);
            lemma_keyword(toks, i, path[0]);
        },
        Condition::Given { path, .. } => {
            assert(condition_tokens(c)[0] == path_tokens(path)[0]);
            assert(toks[i + 0] == condition_tokens(c)[0]);
            lemma_keyword(toks, i, path[0]);
        },
    }
}

proof fn lemma_query(q: Query)
    requires
        query_ok(q),
    ensures
        ({
            let toks = query_tokens(q);
            &&& query_at(toks, 0) is Ok
            &&& query_at(toks, 0)->Ok_0.1 == toks.len()
            &&& lowered_query(query_at(toks, 0)->Ok_0.0) is Ok
            &&& lowered_query(query_at(toks, 0)->Ok_0.0)->Ok_0.filter == query_filter(q)
            &&& lowered_query(query_at(toks, 0)->Ok_0.0)->Ok_0.project == query_columns(q)
            &&& toks.len() > 0
        }),
{
    let toks = query_tokens(q);
    assert(stands(toks, 0, toks));
    match q {
        Query::Bare { where_word: None, condition } => {
            lemma_tokens_nonempty(condition);
            lemma_begins(toks, 0, condition);
            lemma_or_at(toks, 0, condition);
        },
        Query::Bare { where_word: Some(word), condition } => {
            let open = seq![TokView::Ident(word)];
            lemma_stands_split(toks, 0, open, condition_tokens(condition));
            assert(toks[0] == open[0]);
            lemma_keyword(toks, 0, word);
            lemma_or_at(toks, 1, condition);
        },
        Query::Select { word, columns, source, condition } => {
            let open = seq![TokView::Ident(word)];
            let (a, b, c) = (column_tokens(columns), source_tokens(source), where_tokens(condition));
            lemma_stands_split(toks, 0, open + a + b, c);
            lemma_stands_split(toks, 0, open + a, b);
            lemma_stands_split(toks, 0, open, a);
            assert(toks[0] == open[0]);
            lemma_keyword(toks, 0, word);
            let j = 1 + a.len() as int;
            let k = j + b.len();
            lemma_where(toks, k, condition);
            lemma_source(toks, j, source);
            lemma_selection(toks, 1, columns);
            if let Some(cols) = columns {
                assert(fields_of(cols) =~= query_columns(q)->0);
            }
        },
    }
}

proof fn lemma_typed_ends(words: Seq<Seq<char>>, gaps: Seq<Seq<char>>, toks: Seq<TokView>)
    requires
        spelled(words, gaps, toks),
        toks.len() > 0,
        gaps.last().len() == 0,
    ensures
        typed(words, gaps).len() > 0,
        !white_space(typed(words, gaps)[0]),
        !white_space(typed(words, gaps).last()),
    decreases words.len(),
{
    let (ws, gs, ts) = (words.drop_first(), gaps.drop_first(), toks.drop_first());
    let s = typed(words, gaps);
    let rest = typed(ws, gs);
    assert(spells(words[0], toks[0]));
    lemma_word(Seq::empty(), words[0], toks[0], Seq::empty());
    assert(s[0] == words[0][0]);
    if words.len() == 1 {
        assert(gaps[0].len() == 0);
        assert(rest.len() == 0);
        assert(s =~= words[0]);
    } else {
        assert forall|i: int| 0 <= i < ts.len() implies spells(ws[i], #[trigger] ts[i]) by {
            assert(toks[i + 1] == ts[i]);
            assert(words[i + 1] == ws[i]);
        }
        assert forall|i: int| 0 <= i < ts.len() implies blank(#[trigger] gs[i]) by {
            assert(gaps[i + 1] == gs[i]);
        }
        assert forall|i: int| 0 <= i < ts.len() - 1 && gs[i].len() == 0 implies apart(
            #[trigger] ts[i],
            ws[i + 1][0],
        ) by {
            assert(toks[i + 1] == ts[i]);
            assert(gaps[i + 1] == gs[i]);
            assert(words[i + 2] == ws[i + 1]);
        }
        assert(gs.last() == gaps.last());
        lemma_typed_ends(ws, gs, ts);
        assert(s.last() == rest.last());
    }
}

proof fn lemma_trim(lead: Seq<char>, body: Seq<char>, trail: Seq<char>)
    requires
        blank(lead),
        blank(trail),
        body.len() > 0,
        !white_space(body[0]),
        !white_space(body.last()),
    ensures
        trimmed(lead + body + trail) == body,
    decreases lead.len() + trail.len(),
{
    let s = lead + body + trail;
    if lead.len() > 0 {
        assert(s[0] == lead[0]);
        assert(white_space(lead[0]));
        let rest = lead.drop_first();
        assert forall|k: int| 0 <= k < rest.len() implies white_space(#[trigger] rest[k]) by {
            assert(rest[k] == lead[k + 1]);
        }
        lemma_trim(rest, body, trail);
        assert(s.drop_first() =~= rest + body + trail);
    } else {
        assert(s[0] == body[0]);
        if trail.len() > 0 {
            assert(s.last() == trail[trail.len() - 1]);
            assert(white_space(trail[trail.len() - 1]));
            let rest = trail.drop_last();
            assert forall|k: int| 0 <= k < rest.len() implies white_space(#[trigger] rest[k]) by {
                assert(rest[k] == trail[k]);
            }
            lemma_trim(lead, body, rest);
            assert(s.drop_last() =~= lead + body + rest);
        } else {
            assert(s =~= body);
        }
    }
}

/// A query compiles however its words are spaced and its keywords are
/// capitalised, and the filter that it compiles to matches exactly the
/// documents that the query asks for. It projects the columns that it names.
pub proof fn law_query_means_what_it_says(
    q: Query,
    lead: Seq<char>,
    words: Seq<Seq<char>>,
    gaps: Seq<Seq<char>>,
    trail: Seq<char>,
    doc: JsonView,
)
    requires
        query_ok(q),
        spelled(words, gaps, query_tokens(q)),
        gaps.last().len() == 0,
        blank(lead),
        blank(trail),
    ensures
        sql_compiled(lead + typed(words, gaps) + trail) is Ok,
        filter_matches(sql_compiled(lead + typed(words, gaps) + trail)->Ok_0.filter, doc)
            <==> query_holds(q, doc),
        sql_compiled(lead + typed(words, gaps) + trail)->Ok_0.project == query_columns(q),
{
    let toks = query_tokens(q);
    lemma_query(q);
    law_words_are_read_as_tokens(words, gaps, toks);
    lemma_typed_ends(words, gaps, toks);
    lemma_trim(lead, typed(words, gaps), trail);
    match q {
        Query::Bare { condition, .. } => {
            lemma_filter_holds(condition, doc);
        },
        Query::Select { condition: Some((_, c)), .. } => {
            lemma_filter_holds(c, doc);
        },
        Query::Select { condition: None, .. } => {
            law_filters_combine(Seq::empty(), FilterView::Always, doc);
        },
    }
}

/// How a sign is written.
pub open spec fn sign_written(sign: Sign, text: Seq<char>) -> bool {
    match sign {
        Sign::Below => text == "<"@,
        Sign::AtMost => text == "<="@,
        Sign::Above => text == ">"@,
        Sign::AtLeast => text == ">="@,
        Sign::Equal => text == "="@,
        Sign::Unequal => text == "!="@ || text == "<>"@,
    }
}

proof fn lemma_sign_spells(sign: Sign, text: Seq<char>)
    requires
        sign_written(sign, text),
    ensures
        spells(text, sign_token(sign)),
{
    reveal_strlit("<");
    reveal_strlit("<=");
    reveal_strlit(">");
    reveal_strlit(">=");
    reveal_strlit("=");
    reveal_strlit("!=");
    reveal_strlit("<>");
    match sign {
        Sign::Below => assert(text =~= seq!['<']),
        Sign::AtMost => assert(text =~= seq!['<', '=']),
        Sign::Above => assert(text =~= seq!['>']),
        Sign::AtLeast => assert(text =~= seq!['>', '=']),
        Sign::Equal => assert(text =~= seq!['=']),
        Sign::Unequal => {
            if text == "!="@ {
                assert(text =~= seq!['!', '=']);
            } else {
                assert(text =~= seq!['<', '>']);
            }
        },
    }
}

proof fn lemma_comparison_text(
    name: Seq<char>,
    sign: Sign,
    sign_text: Seq<char>,
    k: int,
    doc: JsonView,
)
    requires
        is_name(name),
        path_ok(seq![name]),
        sign_written(sign, sign_text),
        exact(k),
    ensures
        ({
            let text = name + " "@ + sign_text + " "@ + integer_text(k);
            &&& sql_compiled(text) is Ok
            &&& filter_matches(sql_compiled(text)->Ok_0.filter, doc) <==> filter_matches(
                on_field(name, sign_test(sign, whole(k))),
                doc,
            )
        }),
        plain_name(name),
{
    reveal_strlit(" ");
    let text = name + " "@ + sign_text + " "@ + integer_text(k);
    let none = Seq::<char>::empty();
    let words = seq![name, sign_text, integer_text(k)];
    let gaps = seq![" "@, " "@, none];
    let path = seq![name];
    let value = Constant::Integer(k);
    let condition = Condition::Compare { path, sign, value };
    let q = Query::Bare { where_word: None, condition };
    let toks = seq![TokView::Ident(name), sign_token(sign), TokView::Number(integer_text(k))];
    assert(path_tokens(path) =~= seq![TokView::Ident(name)]);
    assert(query_tokens(q) =~= toks);
    lemma_sign_spells(sign, sign_text);
    law_integer_is_read_back(k);
    assert forall|i: int| 0 <= i < toks.len() implies spells(words[i], #[trigger] toks[i]) by {}
    assert forall|i: int| 0 <= i < toks.len() implies blank(#[trigger] gaps[i]) by {}
    law_query_means_what_it_says(q, none, words, gaps, none, doc);
    assert(typed(words, gaps) =~= text) by {
        reveal_with_fuel(typed, 4);
        assert(words.drop_first() =~= seq![sign_text, integer_text(k)]);
        assert(words.drop_first().drop_first() =~= seq![integer_text(k)]);
        assert(gaps.drop_first() =~= seq![" "@, none]);
        assert(gaps.drop_first().drop_first() =~= seq![none]);
        assert(words.drop_first().drop_first().drop_first() =~= Seq::<Seq<char>>::empty());
    }
    assert(none + text + none =~= text);
    assert(field_of(path) == name);
    assert forall|i: int| 0 <= i < name.len() implies name[i] != '.' by {
        assert(in_name(name[i]));
    }
}

/// The text of a name, a sign and an integer compiles to a filter that holds
/// of a document with an integer under that name exactly where the two
/// integers stand in the relation of the sign.
pub proof fn law_comparison_text_compares_integers(
    name: Seq<char>,
    sign: Sign,
    sign_text: Seq<char>,
    k: int,
    doc: JsonView,
    n: int,
)
    requires
        is_name(name),
        path_ok(seq![name]),
        sign_written(sign, sign_text),
        exact(k),
        exact(n),
    ensures
        ({
            let text = name + " "@ + sign_text + " "@ + integer_text(k);
            &&& sql_compiled(text) is Ok
            &&& has_member(doc, name, whole(n)) ==> (filter_matches(
                sql_compiled(text)->Ok_0.filter,
                doc,
            ) <==> stand_in(sign, n, k))
        }),
{
    lemma_comparison_text(name, sign, sign_text, k, doc);
    if has_member(doc, name, whole(n)) {
        law_filter_compares_integers(doc, name, n, k);
    }
}

/// That filter matches no document without a number under the name, but where
/// the sign asks for what is not equal: there it matches every such document.
pub proof fn law_comparison_text_passes_over_others(
    name: Seq<char>,
    sign: Sign,
    sign_text: Seq<char>,
    k: int,
    doc: JsonView,
    value: JsonView,
)
    requires
        is_name(name),
        path_ok(seq![name]),
        sign_written(sign, sign_text),
        exact(k),
        lacks_member(doc, name) || has_member(doc, name, value) && (value is Null || value is Bool
            || value is Text),
    ensures
        ({
            let text = name + " "@ + sign_text + " "@ + integer_text(k);
            &&& sql_compiled(text) is Ok
            &&& filter_matches(sql_compiled(text)->Ok_0.filter, doc) <==> sign is Unequal
        }),
{
    lemma_comparison_text(name, sign, sign_text, k, doc);
    law_filter_keeps_kinds_apart(doc, name, value, whole(k));
    if has_member(doc, name, value) {
        law_filter_tests_equality(doc, name, value, whole(k));
    }
}

} // verus!
