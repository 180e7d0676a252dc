//! A small SQL surface: `SELECT` / `WHERE` text compiled to a portable filter.
//!
//! Intentionally incomplete: joins, aggregates, subqueries, `ORDER BY` and
//! functions are out of scope.
use crate::dialects::portable::{CompiledPortable, CompiledPortableView};
use crate::error::{outcome, Error, ErrorView};
use crate::filter::{
    conjunction, disjunction, field_value, filter_matches, filter_models, lemma_and_filter_model,
    lemma_or_filter_model, Filter, FilterView, Pred, PredView,
};
use crate::json::{group_json_model, models, Json, JsonNumber, JsonView, NumberView};
use crate::json_text::{double_text, read_double};
use crate::text::{
    cat2, cat3, cat4, chars_of, debug_char, debug_quoted, debug_text, decimal, decimal_text,
    integer_in, is_white_space, join, joined, lowercase, lowered, quoted_char, read_integer,
    same_text, texts, trim, trimmed, white_space,
};
use vstd::prelude::*;

verus! {

broadcast use group_json_model;

/// One token of the SQL surface.
#[derive(Debug)]
pub enum Tok {
    /// A name or keyword.
    Ident(String),
    /// A quoted literal, without its quotes.
    Literal(String),
    /// A number as written.
    Number(String),
    /// `=`
    Eq,
    /// `!=` or `<>`
    Ne,
    /// `<`
    Lt,
    /// `<=`
    Lte,
    /// `>`
    Gt,
    /// `>=`
    Gte,
    /// `(`
    LParen,
    /// `)`
    RParen,
    /// `,`
    Comma,
    /// `*`
    Star,
    /// `.`
    Dot,
}

/// Model of a [`Tok`].
#[verifier::ext_equal]
pub enum TokView {
    Ident(Seq<char>),
    Literal(Seq<char>),
    Number(Seq<char>),
    Eq,
    Ne,
    Lt,
    Lte,
    Gt,
    Gte,
    LParen,
    RParen,
    Comma,
    Star,
    Dot,
}

impl View for Tok {
    type V = TokView;

    open spec fn view(&self) -> TokView {
        match self {
            Tok::Ident(s) => TokView::Ident(s@),
            Tok::Literal(s) => TokView::Literal(s@),
            Tok::Number(s) => TokView::Number(s@),
            Tok::Eq => TokView::Eq,
            Tok::Ne => TokView::Ne,
            Tok::Lt => TokView::Lt,
            Tok::Lte => TokView::Lte,
            Tok::Gt => TokView::Gt,
            Tok::Gte => TokView::Gte,
            Tok::LParen => TokView::LParen,
            Tok::RParen => TokView::RParen,
            Tok::Comma => TokView::Comma,
            Tok::Star => TokView::Star,
            Tok::Dot => TokView::Dot,
        }
    }
}

impl Clone for Tok {
    fn clone(&self) -> (r: Tok)
        ensures
            r@ == self@,
    {
        match self {
            Tok::Ident(s) => Tok::Ident(s.clone()),
            Tok::Literal(s) => Tok::Literal(s.clone()),
            Tok::Number(s) => Tok::Number(s.clone()),
            Tok::Eq => Tok::Eq,
            Tok::Ne => Tok::Ne,
            Tok::Lt => Tok::Lt,
            Tok::Lte => Tok::Lte,
            Tok::Gt => Tok::Gt,
            Tok::Gte => Tok::Gte,
            Tok::LParen => Tok::LParen,
            Tok::RParen => Tok::RParen,
            Tok::Comma => Tok::Comma,
            Tok::Star => Tok::Star,
            Tok::Dot => Tok::Dot,
        }
    }
}

/// The models of a list of tokens.
pub open spec fn tok_views(v: Seq<Tok>) -> Seq<TokView> {
    v.map_values(|t: Tok| t@)
}

/// How a token is shown in a message.
pub open spec fn tok_shown(t: TokView) -> Seq<char> {
    match t {
        TokView::Ident(s) => "Ident("@ + debug_quoted(s) + ")"@,
        TokView::Literal(s) => "String("@ + debug_quoted(s) + ")"@,
        TokView::Number(s) => "Number("@ + debug_quoted(s) + ")"@,
        TokView::Eq => "Eq"@,
        TokView::Ne => "Ne"@,
        TokView::Lt => "Lt"@,
        TokView::Lte => "Lte"@,
        TokView::Gt => "Gt"@,
        TokView::Gte => "Gte"@,
        TokView::LParen => "LParen"@,
        TokView::RParen => "RParen"@,
        TokView::Comma => "Comma"@,
        TokView::Star => "Star"@,
        TokView::Dot => "Dot"@,
    }
}

/// How the token at position `i`, or the end of the input, is shown.
pub open spec fn shown_at(toks: Seq<TokView>, i: int) -> Seq<char> {
    if 0 <= i < toks.len() {
        "Some("@ + tok_shown(toks[i]) + ")"@
    } else {
        "None"@
    }
}

/// Shows a token.
fn show_tok(t: &Tok) -> (r: String)
    ensures
        r@ == tok_shown(t@),
{
    match t {
        Tok::Ident(s) => cat3("Ident(", debug_text(s.as_str()).as_str(), ")"),
        Tok::Literal(s) => cat3("String(", debug_text(s.as_str()).as_str(), ")"),
        Tok::Number(s) => cat3("Number(", debug_text(s.as_str()).as_str(), ")"),
        Tok::Eq => "Eq".to_string(),
        Tok::Ne => "Ne".to_string(),
        Tok::Lt => "Lt".to_string(),
        Tok::Lte => "Lte".to_string(),
        Tok::Gt => "Gt".to_string(),
        Tok::Gte => "Gte".to_string(),
        Tok::LParen => "LParen".to_string(),
        Tok::RParen => "RParen".to_string(),
        Tok::Comma => "Comma".to_string(),
        Tok::Star => "Star".to_string(),
        Tok::Dot => "Dot".to_string(),
    }
}

/// An ASCII digit.
pub open spec fn is_digit(c: char) -> bool {
    '0' <= c && c <= '9'
}

/// An ASCII letter or `_`.
pub open spec fn starts_name(c: char) -> bool {
    ('a' <= c && c <= 'z') || ('A' <= c && c <= 'Z') || c == '_'
}

/// A character that may follow the first one of a name.
pub open spec fn continues_name(c: char) -> bool {
    starts_name(c) || is_digit(c) || c == '$'
}

/// A character that may follow the first one of a number.
pub open spec fn continues_number(c: char) -> bool {
    is_digit(c) || c == '.'
}

pub(crate) fn digit_char(c: char) -> (r: bool)
    ensures
        r == is_digit(c),
{
    '0' <= c && c <= '9'
}

pub(crate) fn name_start(c: char) -> (r: bool)
    ensures
        r == starts_name(c),
{
    ('a' <= c && c <= 'z') || ('A' <= c && c <= 'Z') || c == '_'
}

/// Where the name that is being read at `i` ends.
pub open spec fn name_end(s: Seq<char>, i: int) -> int
    decreases s.len() - i,
{
    if 0 <= i < s.len() && continues_name(s[i]) {
        name_end(s, i + 1)
    } else {
        i
    }
}

/// Where the number that is being read at `i` ends.
pub open spec fn number_end(s: Seq<char>, i: int) -> int
    decreases s.len() - i,
{
    if 0 <= i < s.len() && continues_number(s[i]) {
        number_end(s, i + 1)
    } else {
        i
    }
}

/// The rest of a single-quoted literal read from `i`, and where it ends. Two
/// quotes in a row stand for one; a literal may run to the end of the input.
pub open spec fn single_quoted(s: Seq<char>, i: int) -> (Seq<char>, int)
    decreases s.len() - i,
{
    if i < 0 || i >= s.len() {
        (Seq::empty(), i)
    } else if s[i] == '\'' {
        if i + 1 < s.len() && s[i + 1] == '\'' {
            let rest = single_quoted(s, i + 2);
            (seq!['\''] + rest.0, rest.1)
        } else {
            (Seq::empty(), i + 1)
        }
    } else {
        let rest = single_quoted(s, i + 1);
        (seq![s[i]] + rest.0, rest.1)
    }
}

/// The rest of a double-quoted literal read from `i`, and where it ends. A
/// backslash keeps the character behind it; a literal may run to the end of
/// the input.
pub open spec fn double_quoted(s: Seq<char>, i: int) -> (Seq<char>, int)
    decreases s.len() - i,
{
    if i < 0 || i >= s.len() {
        (Seq::empty(), i)
    } else if s[i] == '"' {
        (Seq::empty(), i + 1)
    } else if s[i] == '\\' && i + 1 < s.len() {
        let rest = double_quoted(s, i + 2);
        (seq![s[i + 1]] + rest.0, rest.1)
    } else {
        let rest = double_quoted(s, i + 1);
        (seq![s[i]] + rest.0, rest.1)
    }
}

/// What stands at one position of the input.
pub enum Lexeme {
    /// White space.
    Space,
    /// A token, and the position behind it.
    Token(TokView, int),
    /// No token starts with this character.
    Refused,
}

/// What stands at position `i`.
pub open spec fn lexeme(s: Seq<char>, i: int) -> Lexeme {
    let c = s[i];
    let more = i + 1 < s.len();
    if white_space(c) {
        Lexeme::Space
    } else if c == '\'' {
        let q = single_quoted(s, i + 1);
        Lexeme::Token(TokView::Literal(q.0), q.1)
    } else if c == '"' {
        let q = double_quoted(s, i + 1);
        Lexeme::Token(TokView::Literal(q.0), q.1)
    } else if is_digit(c) || (c == '-' && more && is_digit(s[i + 1])) {
        let end = number_end(s, i + 1);
        Lexeme::Token(TokView::Number(s.subrange(i, end)), end)
    } else if more && ((c == '!' && s[i + 1] == '=') || (c == '<' && s[i + 1] == '>')) {
        Lexeme::Token(TokView::Ne, i + 2)
    } else if more && c == '<' && s[i + 1] == '=' {
        Lexeme::Token(TokView::Lte, i + 2)
    } else if more && c == '>' && s[i + 1] == '=' {
        Lexeme::Token(TokView::Gte, i + 2)
    } else if c == '=' {
        Lexeme::Token(TokView::Eq, i + 1)
    } else if c == '<' {
        Lexeme::Token(TokView::Lt, i + 1)
    } else if c == '>' {
        Lexeme::Token(TokView::Gt, i + 1)
    } else if c == '(' {
        Lexeme::Token(TokView::LParen, i + 1)
    } else if c == ')' {
        Lexeme::Token(TokView::RParen, i + 1)
    } else if c == ',' {
        Lexeme::Token(TokView::Comma, i + 1)
    } else if c == '*' {
        Lexeme::Token(TokView::Star, i + 1)
    } else if c == '.' {
        Lexeme::Token(TokView::Dot, i + 1)
    } else if starts_name(c) {
        let end = name_end(s, i + 1);
        Lexeme::Token(TokView::Ident(s.subrange(i, end)), end)
    } else {
        Lexeme::Refused
    }
}

/// A name ends behind where it starts and within the input.
proof fn lemma_name_end(s: Seq<char>, i: int)
    requires
        0 <= i <= s.len(),
    ensures
        i <= name_end(s, i) <= s.len(),
    decreases s.len() - i,
{
    if i < s.len() && continues_name(s[i]) {
        lemma_name_end(s, i + 1);
    }
}

/// A number ends behind where it starts and within the input.
proof fn lemma_number_end(s: Seq<char>, i: int)
    requires
        0 <= i <= s.len(),
    ensures
        i <= number_end(s, i) <= s.len(),
    decreases s.len() - i,
{
    if i < s.len() && continues_number(s[i]) {
        lemma_number_end(s, i + 1);
    }
}

/// A literal ends behind where it starts and within the input.
proof fn lemma_quoted_end(s: Seq<char>, i: int)
    requires
        0 <= i <= s.len(),
    ensures
        i <= single_quoted(s, i).1 <= s.len(),
        i <= double_quoted(s, i).1 <= s.len(),
    decreases s.len() - i,
{
    if i < s.len() {
        lemma_quoted_end(s, i + 1);
        if i + 1 < s.len() {
            lemma_quoted_end(s, i + 2);
        }
    }
}

/// A token ends behind its first character and within the input.
pub proof fn lemma_lexeme_end(s: Seq<char>, i: int)
    requires
        0 <= i < s.len(),
    ensures
        lexeme(s, i) matches Lexeme::Token(_, end) ==> i < end <= s.len(),
{
    lemma_quoted_end(s, i + 1);
    lemma_number_end(s, i + 1);
    lemma_name_end(s, i + 1);
}

/// The refusal with a message of the SQL surface.
pub open spec fn sql_refusal(message: Seq<char>) -> ErrorView {
    ErrorView::QueryInvalid("dialect 'sql': "@ + message)
}

fn sql_error(message: &str) -> (r: Error)
    ensures
        r@ == sql_refusal(message@),
{
    Error::QueryInvalid(cat2("dialect 'sql': ", message))
}

/// The tokens of the input from position `i` on, or the first refusal.
pub open spec fn lexed(s: Seq<char>, i: int) -> Result<Seq<TokView>, ErrorView>
    decreases s.len() - i,
{
    if i < 0 || i >= s.len() {
        Ok(Seq::empty())
    } else {
        proof {
            lemma_lexeme_end(s, i);
        }
        match lexeme(s, i) {
            Lexeme::Space => lexed(s, i + 1),
            Lexeme::Token(t, end) => match lexed(s, end) {
                Ok(rest) => Ok(seq![t] + rest),
                Err(e) => Err(e),
            },
            Lexeme::Refused => Err(
                sql_refusal(
                    "unexpected character "@ + quoted_char(s[i]) + " at index "@ + decimal(i as nat),
                ),
            ),
        }
    }
}

/// `done` followed by what the rest of the input gives.
pub open spec fn lexed_after(
    done: Seq<TokView>,
    rest: Result<Seq<TokView>, ErrorView>,
) -> Result<Seq<TokView>, ErrorView> {
    match rest {
        Ok(more) => Ok(done + more),
        Err(e) => Err(e),
    }
}

/// Reads a single-quoted literal behind its opening quote.
fn read_single_quoted(s: &Vec<char>, start: usize) -> (r: (String, usize))
    requires
        start <= s@.len(),
    ensures
        (r.0@, r.1 as int) == single_quoted(s@, start as int),
        start <= r.1 <= s@.len(),
{
    let mut text = String::new();
    let mut i: usize = start;
    proof {
        assert(text@ + single_quoted(s@, start as int).0 =~= single_quoted(s@, start as int).0);
    }
    while i < s.len()
        invariant
            start <= i <= s@.len(),
            single_quoted(s@, start as int) == (
                text@ + single_quoted(s@, i as int).0,
                single_quoted(s@, i as int).1,
            ),
        decreases s@.len() - i,
    {
        let ghost before = text@;
        let ghost whole = single_quoted(s@, i as int).0;
        let c = s[i];
        if c == '\'' {
            if i + 1 < s.len() && s[i + 1] == '\'' {
                text.push('\'');
                i = i + 2;
                proof {
                    assert(before + whole =~= text@ + single_quoted(s@, i as int).0);
                }
            } else {
                proof {
                    assert(text@ + whole =~= text@);
                }
                return (text, i + 1);
            }
        } else {
            text.push(c);
            i = i + 1;
            proof {
                assert(before + whole =~= text@ + single_quoted(s@, i as int).0);
            }
        }
    }
    proof {
        assert(text@ + Seq::<char>::empty() =~= text@);
    }
    (text, i)
}

/// Reads a double-quoted literal behind its opening quote.
fn read_double_quoted(s: &Vec<char>, start: usize) -> (r: (String, usize))
    requires
        start <= s@.len(),
    ensures
        (r.0@, r.1 as int) == double_quoted(s@, start as int),
        start <= r.1 <= s@.len(),
{
    let mut text = String::new();
    let mut i: usize = start;
    proof {
        assert(text@ + double_quoted(s@, start as int).0 =~= double_quoted(s@, start as int).0);
    }
    while i < s.len()
        invariant
            start <= i <= s@.len(),
            double_quoted(s@, start as int) == (
                text@ + double_quoted(s@, i as int).0,
                double_quoted(s@, i as int).1,
            ),
        decreases s@.len() - i,
    {
        let ghost before = text@;
        let ghost whole = double_quoted(s@, i as int).0;
        let c = s[i];
        if c == '"' {
            proof {
                assert(text@ + whole =~= text@);
            }
            return (text, i + 1);
        }
        if c == '\\' && i + 1 < s.len() {
            text.push(s[i + 1]);
            i = i + 2;
        } else {
            text.push(c);
            i = i + 1;
        }
        proof {
            assert(before + whole =~= text@ + double_quoted(s@, i as int).0);
        }
    }
    proof {
        assert(text@ + Seq::<char>::empty() =~= text@);
    }
    (text, i)
}

/// The characters of `s` from `from` up to `to`.
pub(crate) fn cut(s: &Vec<char>, from: usize, to: usize) -> (r: String)
    requires
        from <= to <= s@.len(),
    ensures
        r@ == s@.subrange(from as int, to as int),
{
    let mut out = String::new();
    let mut i: usize = from;
    while i < to
        invariant
            from <= i <= to,
            to <= s@.len(),
            out@ == s@.subrange(from as int, i as int),
        decreases to - i,
    {
        out.push(s[i]);
        proof {
            assert(s@.subrange(from as int, i + 1) =~= s@.subrange(from as int, i as int).push(
                s@[i as int],
            ));
        }
        i = i + 1;
    }
    out
}

/// Reads the token at position `i`; `None` where no token starts there.
fn read_token(s: &Vec<char>, i: usize) -> (r: Option<(Tok, usize)>)
    requires
        i < s@.len(),
        !white_space(s@[i as int]),
    ensures
        match r {
            Some(t) => lexeme(s@, i as int) == Lexeme::Token(t.0@, t.1 as int) && i < t.1
                <= s@.len(),
            None => lexeme(s@, i as int) is Refused,
        },
{
    let c = s[i];
    let more = s.len() - i > 1;
    proof {
        lemma_lexeme_end(s@, i as int);
    }
    if c == '\'' {
        let q = read_single_quoted(s, i + 1);
        return Some((Tok::Literal(q.0), q.1));
    }
    if c == '"' {
        let q = read_double_quoted(s, i + 1);
        return Some((Tok::Literal(q.0), q.1));
    }
    if digit_char(c) || (c == '-' && more && digit_char(s[i + 1])) {
        let mut end: usize = i + 1;
        while end < s.len() && (digit_char(s[end]) || s[end] == '.')
            invariant
                i < end <= s@.len(),
                number_end(s@, i + 1) == number_end(s@, end as int),
            decreases s@.len() - end,
        {
            end = end + 1;
        }
        return Some((Tok::Number(cut(s, i, end)), end));
    }
    if more {
        let d = s[i + 1];
        if (c == '!' && d == '=') || (c == '<' && d == '>') {
            return Some((Tok::Ne, i + 2));
        }
        if c == '<' && d == '=' {
            return Some((Tok::Lte, i + 2));
        }
        if c == '>' && d == '=' {
            return Some((Tok::Gte, i + 2));
        }
    }
    if c == '=' {
        Some((Tok::Eq, i + 1))
    } else if c == '<' {
        Some((Tok::Lt, i + 1))
    } else if c == '>' {
        Some((Tok::Gt, i + 1))
    } else if c == '(' {
        Some((Tok::LParen, i + 1))
    } else if c == ')' {
        Some((Tok::RParen, i + 1))
    } else if c == ',' {
        Some((Tok::Comma, i + 1))
    } else if c == '*' {
        Some((Tok::Star, i + 1))
    } else if c == '.' {
        Some((Tok::Dot, i + 1))
    } else if name_start(c) {
        let mut end: usize = i + 1;
        while end < s.len() && (name_start(s[end]) || digit_char(s[end]) || s[end] == '$')
            invariant
                i < end <= s@.len(),
                name_end(s@, i + 1) == name_end(s@, end as int),
            decreases s@.len() - end,
        {
            end = end + 1;
        }
        Some((Tok::Ident(cut(s, i, end)), end))
    } else {
        None
    }
}

/// Splits the input into tokens.
pub fn tokenize(src: &str) -> (r: Result<Vec<Tok>, Error>)
    ensures
        match r {
            Ok(toks) => lexed(src@, 0) == Ok::<Seq<TokView>, ErrorView>(tok_views(toks@)),
            Err(e) => lexed(src@, 0) == Err::<Seq<TokView>, ErrorView>(e@),
        },
{
    let s = chars_of(src);
    let mut out: Vec<Tok> = Vec::new();
    let mut i: usize = 0;
    proof {
        assert(lexed_after(tok_views(out@), lexed(s@, 0)) == lexed(s@, 0)) by {
            if let Ok(rest) = lexed(s@, 0) {
                assert(tok_views(out@) + rest =~= rest);
            }
        }
    }
    while i < s.len()
        invariant
            s@ == src@,
            i <= s@.len(),
            lexed(src@, 0) == lexed_after(tok_views(out@), lexed(s@, i as int)),
        decreases s@.len() - i,
    {
        if is_white_space(s[i]) {
            i = i + 1;
            continue;
        }
        match read_token(&s, i) {
            Some(t) => {
                let ghost before = tok_views(out@);
                let ghost tok = t.0@;
                out.push(t.0);
                proof {
                    assert(tok_views(out@) =~= before.push(tok));
                    if let Ok(rest) = lexed(s@, t.1 as int) {
                        assert(before + (seq![tok] + rest) =~= tok_views(out@) + rest);
                    }
                }
                i = t.1;
            },
            None => {
                let shown = debug_char(s[i]);
                let at = decimal_text(i as u64);
                return Err(
                    sql_error(
                        cat4("unexpected character ", shown.as_str(), " at index ", at.as_str()).as_str(),
                    ),
                );
            },
        }
    }
    proof {
        assert(tok_views(out@) + Seq::<TokView>::empty() =~= tok_views(out@));
    }
    Ok(out)
}

/// The token at position `i` is the keyword `kw`, in any case.
pub open spec fn keyword_at(toks: Seq<TokView>, i: int, kw: Seq<char>) -> bool {
    0 <= i < toks.len() && match toks[i] {
        TokView::Ident(s) => lowered(s) == lowered(kw),
        _ => false,
    }
}

/// The token at position `i` is `t`.
pub open spec fn token_at(toks: Seq<TokView>, i: int, t: TokView) -> bool {
    0 <= i < toks.len() && toks[i] == t
}

/// The name at position `i`, where one stands there.
pub open spec fn name_at(toks: Seq<TokView>, i: int) -> Option<Seq<char>> {
    if 0 <= i < toks.len() {
        match toks[i] {
            TokView::Ident(s) => Some(s),
            _ => None,
        }
    } else {
        None
    }
}

/// The names that follow `parts` at `i`, each behind a dot, and where they end.
pub open spec fn path_tail(toks: Seq<TokView>, parts: Seq<Seq<char>>, i: int) -> Result<
    (Seq<Seq<char>>, int),
    ErrorView,
>
    decreases toks.len() - i,
{
    if token_at(toks, i, TokView::Dot) {
        match name_at(toks, i + 1) {
            Some(name) => path_tail(toks, parts.push(name), i + 2),
            None => Err(
                sql_refusal("expected identifier after '.', got "@ + shown_at(toks, i + 1)),
            ),
        }
    } else {
        Ok((parts, i))
    }
}

/// The dotted path at `i` and where it ends.
pub open spec fn path_at(toks: Seq<TokView>, i: int) -> Result<(Seq<char>, int), ErrorView> {
    match name_at(toks, i) {
        Some(name) => match path_tail(toks, seq![name], i + 1) {
            Ok((parts, j)) => Ok((joined(parts, "."@), j)),
            Err(e) => Err(e),
        },
        None => Err(sql_refusal("expected identifier, got "@ + shown_at(toks, i))),
    }
}

/// The paths that follow `cols` at `i`, each behind a comma, and where they
/// end.
pub open spec fn column_tail(toks: Seq<TokView>, cols: Seq<Seq<char>>, i: int) -> Result<
    (Seq<Seq<char>>, int),
    ErrorView,
>
    decreases toks.len() - i,
{
    if token_at(toks, i, TokView::Comma) {
        match path_at(toks, i + 1) {
            Ok((path, j)) => if i < j <= toks.len() {
                column_tail(toks, cols.push(path), j)
            } else {
                Ok((cols, i))
            },
            Err(e) => Err(e),
        }
    } else {
        Ok((cols, i))
    }
}

/// The column list at `i` and where it ends.
pub open spec fn columns_at(toks: Seq<TokView>, i: int) -> Result<
    (Seq<Seq<char>>, int),
    ErrorView,
> {
    match path_at(toks, i) {
        Ok((path, j)) => column_tail(toks, seq![path], j),
        Err(e) => Err(e),
    }
}

/// The value a number literal stands for: a 64-bit integer where it is one,
/// else a finite double.
pub open spec fn number_value(text: Seq<char>) -> Result<JsonView, ErrorView> {
    match integer_in(text) {
        Some(n) => Ok(
            JsonView::Number(
                if n >= 0 {
                    NumberView::PosInt(n as u64)
                } else {
                    NumberView::NegInt(n)
                },
            ),
        ),
        None => match double_text(text) {
            Some(Some(t)) => Ok(JsonView::Number(NumberView::Float(t))),
            _ => Err(sql_refusal("invalid number literal "@ + text)),
        },
    }
}

/// The literal at position `i`; it is one token long.
pub open spec fn value_at(toks: Seq<TokView>, i: int) -> Result<JsonView, ErrorView> {
    if keyword_at(toks, i, "true"@) {
        Ok(JsonView::Bool(true))
    } else if keyword_at(toks, i, "false"@) {
        Ok(JsonView::Bool(false))
    } else if keyword_at(toks, i, "null"@) {
        Ok(JsonView::Null)
    } else if 0 <= i < toks.len() && toks[i] is Literal {
        Ok(JsonView::Text(toks[i]->Literal_0))
    } else if 0 <= i < toks.len() && toks[i] is Number {
        number_value(toks[i]->Number_0)
    } else {
        Err(sql_refusal("expected value literal, got "@ + shown_at(toks, i)))
    }
}

/// The values of an `IN` list from `i` on, behind `vals`, and where the list
/// ends.
pub open spec fn list_at(toks: Seq<TokView>, vals: Seq<JsonView>, i: int) -> Result<
    (Seq<JsonView>, int),
    ErrorView,
>
    decreases toks.len() - i,
{
    match value_at(toks, i) {
        Err(e) => Err(e),
        Ok(v) => if token_at(toks, i + 1, TokView::Comma) {
            list_at(toks, vals.push(v), i + 2)
        } else if token_at(toks, i + 1, TokView::RParen) {
            Ok((vals.push(v), i + 2))
        } else {
            Err(sql_refusal("expected ',' or ')' in IN list, got "@ + shown_at(toks, i + 1)))
        },
    }
}

/// Absent or stored `null`.
pub open spec fn null_test(path: Seq<char>) -> FilterView {
    disjunction(
        seq![
            FilterView::Field { path, pred: PredView::Exists(false) },
            FilterView::Field { path, pred: PredView::Eq(JsonView::Null) },
        ],
    )
}

/// The comparison that a token asks for.
pub open spec fn comparison(t: TokView, v: JsonView) -> Option<PredView> {
    match t {
        TokView::Eq => Some(PredView::Eq(v)),
        TokView::Ne => Some(PredView::Ne(v)),
        TokView::Lt => Some(PredView::Lt(v)),
        TokView::Lte => Some(PredView::Lte(v)),
        TokView::Gt => Some(PredView::Gt(v)),
        TokView::Gte => Some(PredView::Gte(v)),
        _ => None,
    }
}

/// The test of the field `path` that stands at `i`, and where it ends.
pub open spec fn test_at(toks: Seq<TokView>, path: Seq<char>, i: int) -> Result<
    (FilterView, int),
    ErrorView,
> {
    if keyword_at(toks, i, "IS"@) {
        let negated = keyword_at(toks, i + 1, "NOT"@);
        let j = if negated {
            i + 2
        } else {
            i + 1
        };
        if !keyword_at(toks, j, "NULL"@) {
            Err(sql_refusal("expected NULL after IS"@))
        } else if negated {
            Ok((FilterView::Not(Box::new(null_test(path))), j + 1))
        } else {
            Ok((null_test(path), j + 1))
        }
    } else if keyword_at(toks, i, "IN"@) {
        if token_at(toks, i + 1, TokView::LParen) {
            match list_at(toks, Seq::empty(), i + 2) {
                Ok((vals, j)) => Ok((FilterView::Field { path, pred: PredView::In(vals) }, j)),
                Err(e) => Err(e),
            }
        } else {
            Err(sql_refusal("expected '(' after IN, got "@ + shown_at(toks, i + 1)))
        }
    } else if 0 <= i < toks.len() && comparison(toks[i], JsonView::Null) is Some {
        match value_at(toks, i + 1) {
            Ok(v) => Ok((FilterView::Field { path, pred: comparison(toks[i], v)->0 }, i + 2)),
            Err(e) => Err(e),
        }
    } else {
        Err(
            sql_refusal(
                "expected comparison after field "@ + debug_quoted(path) + ", got "@ + shown_at(
                    toks,
                    i,
                ),
            ),
        )
    }
}

/// The operand at `i`, a group in brackets or a test of one field, and where
/// it ends.
pub open spec fn primary_at(toks: Seq<TokView>, i: int) -> Result<(FilterView, int), ErrorView>
    decreases toks.len() - i, 0int,
{
    if token_at(toks, i, TokView::LParen) {
        match or_at(toks, i + 1) {
            Ok((f, j)) => if token_at(toks, j, TokView::RParen) {
                Ok((f, j + 1))
            } else {
                Err(sql_refusal("expected ')', got "@ + shown_at(toks, j)))
            },
            Err(e) => Err(e),
        }
    } else {
        match path_at(toks, i) {
            Ok((path, j)) => test_at(toks, path, j),
            Err(e) => Err(e),
        }
    }
}

/// The operand at `i` under any number of `NOT`s, and where it ends.
pub open spec fn not_at(toks: Seq<TokView>, i: int) -> Result<(FilterView, int), ErrorView>
    decreases toks.len() - i, 1int,
{
    if keyword_at(toks, i, "NOT"@) {
        match not_at(toks, i + 1) {
            Ok((f, j)) => Ok((FilterView::Not(Box::new(f)), j)),
            Err(e) => Err(e),
        }
    } else {
        primary_at(toks, i)
    }
}

/// The conjunction that `left`, which ends at `i`, is the beginning of.
/// Operands join from the left.
pub open spec fn and_tail(toks: Seq<TokView>, left: FilterView, i: int) -> Result<
    (FilterView, int),
    ErrorView,
>
    decreases toks.len() - i, 2int,
{
    if keyword_at(toks, i, "AND"@) {
        match not_at(toks, i + 1) {
            Ok((right, j)) => if i < j <= toks.len() {
                and_tail(toks, conjunction(seq![left, right]), j)
            } else {
                Ok((left, i))
            },
            Err(e) => Err(e),
        }
    } else {
        Ok((left, i))
    }
}

/// The conjunction at `i` and where it ends.
pub open spec fn and_at(toks: Seq<TokView>, i: int) -> Result<(FilterView, int), ErrorView>
    decreases toks.len() - i, 3int,
{
    match not_at(toks, i) {
        Ok((left, j)) => if i < j <= toks.len() {
            and_tail(toks, left, j)
        } else {
            Ok((left, i))
        },
        Err(e) => Err(e),
    }
}

/// The disjunction that `left`, which ends at `i`, is the beginning of.
/// Operands join from the left.
pub open spec fn or_tail(toks: Seq<TokView>, left: FilterView, i: int) -> Result<
    (FilterView, int),
    ErrorView,
>
    decreases toks.len() - i, 4int,
{
    if keyword_at(toks, i, "OR"@) {
        match and_at(toks, i + 1) {
            Ok((right, j)) => if i < j <= toks.len() {
                or_tail(toks, disjunction(seq![left, right]), j)
            } else {
                Ok((left, i))
            },
            Err(e) => Err(e),
        }
    } else {
        Ok((left, i))
    }
}

/// The disjunction at `i` and where it ends.
pub open spec fn or_at(toks: Seq<TokView>, i: int) -> Result<(FilterView, int), ErrorView>
    decreases toks.len() - i, 5int,
{
    match and_at(toks, i) {
        Ok((left, j)) => if i < j <= toks.len() {
            or_tail(toks, left, j)
        } else {
            Ok((left, i))
        },
        Err(e) => Err(e),
    }
}

/// A parsed query.
#[derive(Debug)]
pub struct SqlQuery {
    /// `None` means `SELECT *` or a bare condition.
    pub columns: Option<Vec<String>>,
    /// The name behind `FROM`; the host binds the collection.
    pub from: Option<String>,
    /// The condition, where there is one.
    pub where_clause: Option<Filter>,
}

/// Model of a [`SqlQuery`].
#[verifier::ext_equal]
pub struct SqlQueryView {
    pub columns: Option<Seq<Seq<char>>>,
    pub from: Option<Seq<char>>,
    pub where_clause: Option<FilterView>,
}

impl View for SqlQuery {
    type V = SqlQueryView;

    open spec fn view(&self) -> SqlQueryView {
        SqlQueryView {
            columns: match self.columns {
                Some(cols) => Some(texts(cols@)),
                None => None,
            },
            from: match self.from {
                Some(name) => Some(name@),
                None => None,
            },
            where_clause: match self.where_clause {
                Some(f) => Some(f@),
                None => None,
            },
        }
    }
}

/// The columns behind `SELECT` at `i`, `None` for a star, and where they end.
pub open spec fn selection_at(toks: Seq<TokView>, i: int) -> Result<
    (Option<Seq<Seq<char>>>, int),
    ErrorView,
> {
    if token_at(toks, i, TokView::Star) {
        Ok((None, i + 1))
    } else {
        match columns_at(toks, i) {
            Ok((cols, j)) => Ok((Some(cols), j)),
            Err(e) => Err(e),
        }
    }
}

/// The optional `FROM` at `i` and where it ends.
pub open spec fn source_at(toks: Seq<TokView>, i: int) -> Result<
    (Option<Seq<char>>, int),
    ErrorView,
> {
    if keyword_at(toks, i, "FROM"@) {
        match path_at(toks, i + 1) {
            Ok((name, j)) => Ok((Some(name), j)),
            Err(e) => Err(e),
        }
    } else {
        Ok((None, i))
    }
}

/// The optional `WHERE` at `i` and where it ends.
pub open spec fn condition_at(toks: Seq<TokView>, i: int) -> Result<
    (Option<FilterView>, int),
    ErrorView,
> {
    if keyword_at(toks, i, "WHERE"@) {
        match or_at(toks, i + 1) {
            Ok((f, j)) => Ok((Some(f), j)),
            Err(e) => Err(e),
        }
    } else {
        Ok((None, i))
    }
}

/// The query that the tokens spell, and where it ends: `SELECT` with columns,
/// an optional source and condition; or `WHERE` with a condition; or a bare
/// condition.
pub open spec fn query_at(toks: Seq<TokView>, i: int) -> Result<(SqlQueryView, int), ErrorView> {
    if keyword_at(toks, i, "SELECT"@) {
        match selection_at(toks, i + 1) {
            Ok((columns, j)) => match source_at(toks, j) {
                Ok((from, k)) => match condition_at(toks, k) {
                    Ok((where_clause, end)) => Ok(
                        (SqlQueryView { columns, from, where_clause }, end),
                    ),
                    Err(e) => Err(e),
                },
                Err(e) => Err(e),
            },
            Err(e) => Err(e),
        }
    } else {
        let start = if keyword_at(toks, i, "WHERE"@) {
            i + 1
        } else {
            i
        };
        match or_at(toks, start) {
            Ok((f, end)) => Ok(
                (SqlQueryView { columns: None, from: None, where_clause: Some(f) }, end),
            ),
            Err(e) => Err(e),
        }
    }
}

/// A reader over tokens.
pub struct Parser {
    /// The tokens.
    pub toks: Vec<Tok>,
    /// Position of the next token.
    pub i: usize,
}

impl Parser {
    /// The models of the tokens.
    pub open spec fn view(&self) -> Seq<TokView> {
        tok_views(self.toks@)
    }

    /// The position stands within the tokens or at their end.
    pub open spec fn wf(&self) -> bool {
        self.i <= self.toks@.len()
    }

    /// A reader at the first token.
    pub fn new(toks: Vec<Tok>) -> (r: Parser)
        ensures
            r@ == tok_views(toks@),
            r.i == 0,
            r.wf(),
    {
        Parser { toks, i: 0 }
    }

    /// The next token, left where it is.
    pub fn peek(&self) -> (r: Option<&Tok>)
        requires
            self.wf(),
        ensures
            match r {
                Some(t) => self.i < self@.len() && self@[self.i as int] == t@,
                None => self.i == self@.len(),
            },
    {
        if self.i < self.toks.len() {
            Some(&self.toks[self.i])
        } else {
            None
        }
    }

    /// Takes the next token.
    pub fn bump(&mut self) -> (r: Option<Tok>)
        requires
            old(self).wf(),
        ensures
            final(self).wf(),
            final(self).toks == old(self).toks,
            match r {
                Some(t) => old(self).i < old(self)@.len() && old(self)@[old(self).i as int] == t@
                    && final(self).i == old(self).i + 1,
                None => old(self).i == old(self)@.len() && final(self).i == old(self).i,
            },
    {
        if self.i < self.toks.len() {
            let t = self.toks[self.i].clone();
            self.i = self.i + 1;
            Some(t)
        } else {
            None
        }
    }

    /// Shows the token at position `at`, or the end of the input.
    fn show(&self, at: usize) -> (r: String)
        ensures
            r@ == shown_at(self@, at as int),
    {
        if at < self.toks.len() {
            cat3("Some(", show_tok(&self.toks[at]).as_str(), ")")
        } else {
            "None".to_string()
        }
    }

    /// Whether the next token is the keyword `kw`, in any case.
    pub fn keyword(&self, kw: &str) -> (r: bool)
        requires
            self.wf(),
        ensures
            r == keyword_at(self@, self.i as int, kw@),
    {
        match self.peek() {
            Some(Tok::Ident(s)) => same_text(
                lowercase(s.as_str()).as_str(),
                lowercase(kw).as_str(),
            ),
            _ => false,
        }
    }

    /// Refuses tokens that are left over.
    pub fn expect_end(&self) -> (r: Result<(), Error>)
        requires
            self.wf(),
        ensures
            match r {
                Ok(_) => self.i == self@.len(),
                Err(e) => self.i < self@.len() && e@ == sql_refusal(
                    "unexpected trailing token "@ + tok_shown(self@[self.i as int]),
                ),
            },
    {
        if self.i < self.toks.len() {
            let shown = show_tok(&self.toks[self.i]);
            Err(sql_error(cat2("unexpected trailing token ", shown.as_str()).as_str()))
        } else {
            Ok(())
        }
    }

    /// Reads a dotted path.
    pub fn parse_ident_path(&mut self) -> (r: Result<String, Error>)
        requires
            old(self).wf(),
        ensures
            final(self).wf(),
            final(self).toks == old(self).toks,
            r is Ok ==> final(self).i > old(self).i,
            match r {
                Ok(path) => path_at(old(self)@, old(self).i as int) == Ok::<
                    (Seq<char>, int),
                    ErrorView,
                >((path@, final(self).i as int)),
                Err(e) => path_at(old(self)@, old(self).i as int) == Err::<
                    (Seq<char>, int),
                    ErrorView,
                >(e@),
            },
    {
        let ghost toks = self@;
        let ghost start = self.i as int;
        let at = self.i;
        let mut parts: Vec<String> = Vec::new();
        match self.bump() {
            Some(Tok::Ident(s)) => {
                parts.push(s);
            },
            _ => {
                let shown = self.show(at);
                return Err(sql_error(cat2("expected identifier, got ", shown.as_str()).as_str()));
            },
        }
        proof {
            assert(texts(parts@) =~= seq![name_at(toks, start)->0]);
        }
        while matches!(self.peek(), Some(Tok::Dot))
            invariant
                self.wf(),
                self.toks == old(self).toks,
                toks == self@,
                self.i > start,
                start == old(self).i,
                name_at(toks, start) is Some,
                path_tail(toks, seq![name_at(toks, start)->0], start + 1) == path_tail(
                    toks,
                    texts(parts@),
                    self.i as int,
                ),
            decreases toks.len() - self.i,
        {
            self.bump();
            let at = self.i;
            let ghost before = texts(parts@);
            match self.bump() {
                Some(Tok::Ident(s)) => {
                    parts.push(s);
                    proof {
                        assert(texts(parts@) =~= before.push(name_at(toks, at as int)->0));
                    }
                },
                _ => {
                    let shown = self.show(at);
                    return Err(
                        sql_error(
                            cat2("expected identifier after '.', got ", shown.as_str()).as_str(),
                        ),
                    );
                },
            }
        }
        Ok(join(&parts, "."))
    }

    /// Reads a list of paths between commas.
    pub fn parse_column_list(&mut self) -> (r: Result<Vec<String>, Error>)
        requires
            old(self).wf(),
        ensures
            final(self).wf(),
            final(self).toks == old(self).toks,
            match r {
                Ok(cols) => columns_at(old(self)@, old(self).i as int) == Ok::<
                    (Seq<Seq<char>>, int),
                    ErrorView,
                >((texts(cols@), final(self).i as int)),
                Err(e) => columns_at(old(self)@, old(self).i as int) == Err::<
                    (Seq<Seq<char>>, int),
                    ErrorView,
                >(e@),
            },
    {
        let ghost toks = self@;
        let ghost start = self.i as int;
        let first = self.parse_ident_path()?;
        let mut cols: Vec<String> = Vec::new();
        cols.push(first);
        proof {
            assert(texts(cols@) =~= seq![first@]);
        }
        while matches!(self.peek(), Some(Tok::Comma))
            invariant
                self.wf(),
                self.toks == old(self).toks,
                toks == self@,
                start == old(self).i,
                columns_at(toks, start) == column_tail(toks, texts(cols@), self.i as int),
            decreases toks.len() - self.i,
        {
            self.bump();
            let ghost before = texts(cols@);
            let next = self.parse_ident_path()?;
            cols.push(next);
            proof {
                assert(texts(cols@) =~= before.push(next@));
            }
        }
        Ok(cols)
    }

    /// Reads a literal.
    fn parse_value(&mut self) -> (r: Result<Json, Error>)
        requires
            old(self).wf(),
        ensures
            final(self).wf(),
            final(self).toks == old(self).toks,
            r is Ok ==> final(self).i == old(self).i + 1,
            outcome(r) == value_at(old(self)@, old(self).i as int),
    {
        let at = self.i;
        let truth = self.keyword("true");
        let lie = self.keyword("false");
        let nothing = self.keyword("null");
        match self.bump() {
            Some(Tok::Literal(s)) => Ok(Json::Text(s)),
            Some(Tok::Number(n)) => {
                match read_integer(n.as_str()) {
                    Some(i) => Ok(Json::Number(JsonNumber::from_i64(i))),
                    None => match read_double(n.as_str()) {
                        Some(Some(t)) => Ok(Json::Number(JsonNumber::Float(t))),
                        _ => Err(sql_error(cat2("invalid number literal ", n.as_str()).as_str())),
                    },
                }
            },
            _ => {
                if truth {
                    Ok(Json::Bool(true))
                } else if lie {
                    Ok(Json::Bool(false))
                } else if nothing {
                    Ok(Json::Null)
                } else {
                    let shown = self.show(at);
                    Err(sql_error(cat2("expected value literal, got ", shown.as_str()).as_str()))
                }
            },
        }
    }
}

/// A parsed filter and where it ends, as a model.
pub open spec fn parsed(r: Result<Filter, Error>, end: int) -> Result<
    (FilterView, int),
    ErrorView,
> {
    match r {
        Ok(f) => Ok((f@, end)),
        Err(e) => Err(e@),
    }
}

impl Parser {
    /// Reads the values of an `IN` list behind its opening bracket.
    fn parse_list(&mut self) -> (r: Result<Vec<Json>, Error>)
        requires
            old(self).wf(),
        ensures
            final(self).wf(),
            final(self).toks == old(self).toks,
            r is Ok ==> final(self).i > old(self).i,
            match r {
                Ok(vals) => list_at(old(self)@, Seq::empty(), old(self).i as int) == Ok::<
                    (Seq<JsonView>, int),
                    ErrorView,
                >((models(vals@), final(self).i as int)),
                Err(e) => list_at(old(self)@, Seq::empty(), old(self).i as int) == Err::<
                    (Seq<JsonView>, int),
                    ErrorView,
                >(e@),
            },
    {
        let ghost toks = self@;
        let ghost start = self.i as int;
        let mut vals: Vec<Json> = Vec::new();
        proof {
            assert(models(vals@) =~= Seq::empty());
        }
        loop
            invariant
                self.wf(),
                self.toks == old(self).toks,
                toks == self@,
                start == old(self).i,
                self.i >= start,
                list_at(toks, Seq::empty(), start) == list_at(toks, models(vals@), self.i as int),
            decreases toks.len() - self.i,
        {
            let ghost before = models(vals@);
            let v = self.parse_value()?;
            vals.push(v);
            proof {
                assert(models(vals@) =~= before.push(v@));
            }
            let at = self.i;
            match self.bump() {
                Some(Tok::Comma) => {},
                Some(Tok::RParen) => {
                    return Ok(vals);
                },
                _ => {
                    let shown = self.show(at);
                    return Err(
                        sql_error(
                            cat2("expected ',' or ')' in IN list, got ", shown.as_str()).as_str(),
                        ),
                    );
                },
            }
        }
    }

    /// Reads the test of the field `path`.
    fn parse_test(&mut self, path: String) -> (r: Result<Filter, Error>)
        requires
            old(self).wf(),
        ensures
            final(self).wf(),
            final(self).toks == old(self).toks,
            r is Ok ==> final(self).i > old(self).i,
            parsed(r, final(self).i as int) == test_at(old(self)@, path@, old(self).i as int),
    {
        if self.keyword("IS") {
            self.bump();
            let negated = if self.keyword("NOT") {
                self.bump();
                true
            } else {
                false
            };
            if !self.keyword("NULL") {
                return Err(sql_error("expected NULL after IS"));
            }
            self.bump();
            let ghost p = path@;
            let absent = Filter::Field { path: path.clone(), pred: Pred::Exists(false) };
            let null = Filter::Field { path, pred: Pred::Eq(Json::Null) };
            let mut parts: Vec<Filter> = Vec::new();
            parts.push(absent);
            parts.push(null);
            proof {
                assert(filter_models(parts@) =~= seq![
                    FilterView::Field { path: p, pred: PredView::Exists(false) },
                    FilterView::Field { path: p, pred: PredView::Eq(JsonView::Null) },
                ]);
            }
            let f = Filter::or(parts);
            return Ok(
                if negated {
                    Filter::not(f)
                } else {
                    f
                },
            );
        }
        if self.keyword("IN") {
            self.bump();
            let at = self.i;
            match self.bump() {
                Some(Tok::LParen) => {},
                _ => {
                    let shown = self.show(at);
                    return Err(
                        sql_error(cat2("expected '(' after IN, got ", shown.as_str()).as_str()),
                    );
                },
            }
            let vals = self.parse_list()?;
            return Ok(Filter::Field { path, pred: Pred::In(vals) });
        }
        let at = self.i;
        let pred = match self.bump() {
            Some(Tok::Eq) => Pred::Eq(self.parse_value()?),
            Some(Tok::Ne) => Pred::Ne(self.parse_value()?),
            Some(Tok::Lt) => Pred::Lt(self.parse_value()?),
            Some(Tok::Lte) => Pred::Lte(self.parse_value()?),
            Some(Tok::Gt) => Pred::Gt(self.parse_value()?),
            Some(Tok::Gte) => Pred::Gte(self.parse_value()?),
            _ => {
                let shown = self.show(at);
                return Err(
                    sql_error(
                        cat4(
                            "expected comparison after field ",
                            debug_text(path.as_str()).as_str(),
                            ", got ",
                            shown.as_str(),
                        ).as_str(),
                    ),
                );
            },
        };
        Ok(Filter::Field { path, pred })
    }

    /// Reads a group in brackets or the test of one field.
    fn parse_primary(&mut self) -> (r: Result<Filter, Error>)
        requires
            old(self).wf(),
        ensures
            final(self).wf(),
            final(self).toks == old(self).toks,
            r is Ok ==> final(self).i > old(self).i,
            parsed(r, final(self).i as int) == primary_at(old(self)@, old(self).i as int),
        decreases old(self).toks@.len() - old(self).i, 0int,
    {
        if matches!(self.peek(), Some(Tok::LParen)) {
            self.bump();
            let inner = self.parse_or()?;
            let at = self.i;
            match self.bump() {
                Some(Tok::RParen) => {},
                _ => {
                    let shown = self.show(at);
                    return Err(sql_error(cat2("expected ')', got ", shown.as_str()).as_str()));
                },
            }
            return Ok(inner);
        }
        let path = self.parse_ident_path()?;
        self.parse_test(path)
    }

    /// Reads an operand under any number of `NOT`s.
    fn parse_not(&mut self) -> (r: Result<Filter, Error>)
        requires
            old(self).wf(),
        ensures
            final(self).wf(),
            final(self).toks == old(self).toks,
            r is Ok ==> final(self).i > old(self).i,
            parsed(r, final(self).i as int) == not_at(old(self)@, old(self).i as int),
        decreases old(self).toks@.len() - old(self).i, 1int,
    {
        if self.keyword("NOT") {
            self.bump();
            return Ok(Filter::not(self.parse_not()?));
        }
        self.parse_primary()
    }

    /// Reads a conjunction.
    fn parse_and(&mut self) -> (r: Result<Filter, Error>)
        requires
            old(self).wf(),
        ensures
            final(self).wf(),
            final(self).toks == old(self).toks,
            r is Ok ==> final(self).i > old(self).i,
            parsed(r, final(self).i as int) == and_at(old(self)@, old(self).i as int),
        decreases old(self).toks@.len() - old(self).i, 3int,
    {
        let ghost toks = self@;
        let ghost start = self.i as int;
        let mut left = self.parse_not()?;
        while self.keyword("AND")
            invariant
                self.wf(),
                self.toks == old(self).toks,
                toks == self@,
                start == old(self).i,
                self.i > start,
                and_at(toks, start) == and_tail(toks, left@, self.i as int),
            decreases toks.len() - self.i,
        {
            self.bump();
            let right = self.parse_not()?;
            let ghost pair = seq![left@, right@];
            let mut parts: Vec<Filter> = Vec::new();
            parts.push(left);
            parts.push(right);
            proof {
                assert(filter_models(parts@) =~= pair);
            }
            left = Filter::and(parts);
        }
        Ok(left)
    }

    /// Reads a disjunction.
    fn parse_or(&mut self) -> (r: Result<Filter, Error>)
        requires
            old(self).wf(),
        ensures
            final(self).wf(),
            final(self).toks == old(self).toks,
            r is Ok ==> final(self).i > old(self).i,
            parsed(r, final(self).i as int) == or_at(old(self)@, old(self).i as int),
        decreases old(self).toks@.len() - old(self).i, 5int,
    {
        let ghost toks = self@;
        let ghost start = self.i as int;
        let mut left = self.parse_and()?;
        while self.keyword("OR")
            invariant
                self.wf(),
                self.toks == old(self).toks,
                toks == self@,
                start == old(self).i,
                self.i > start,
                or_at(toks, start) == or_tail(toks, left@, self.i as int),
            decreases toks.len() - self.i,
        {
            self.bump();
            let right = self.parse_and()?;
            let ghost pair = seq![left@, right@];
            let mut parts: Vec<Filter> = Vec::new();
            parts.push(left);
            parts.push(right);
            proof {
                assert(filter_models(parts@) =~= pair);
            }
            left = Filter::or(parts);
        }
        Ok(left)
    }

    /// Reads a query.
    fn parse_query(&mut self) -> (r: Result<SqlQuery, Error>)
        requires
            old(self).wf(),
        ensures
            final(self).wf(),
            final(self).toks == old(self).toks,
            match r {
                Ok(q) => query_at(old(self)@, old(self).i as int) == Ok::<
                    (SqlQueryView, int),
                    ErrorView,
                >((q@, final(self).i as int)),
                Err(e) => query_at(old(self)@, old(self).i as int) == Err::<
                    (SqlQueryView, int),
                    ErrorView,
                >(e@),
            },
    {
        if self.keyword("SELECT") {
            self.bump();
            let columns = if matches!(self.peek(), Some(Tok::Star)) {
                self.bump();
                None
            } else {
                Some(self.parse_column_list()?)
            };
            let from = if self.keyword("FROM") {
                self.bump();
                Some(self.parse_ident_path()?)
            } else {
                None
            };
            let where_clause = if self.keyword("WHERE") {
                self.bump();
                Some(self.parse_or()?)
            } else {
                None
            };
            return Ok(SqlQuery { columns, from, where_clause });
        }
        if self.keyword("WHERE") {
            self.bump();
        }
        Ok(SqlQuery { columns: None, from: None, where_clause: Some(self.parse_or()?) })
    }
}

/// One part tests for absence and the other for a stored `null` of the same
/// field.
pub open spec fn null_pair(a: FilterView, b: FilterView) -> bool {
    match (a, b) {
        (
            FilterView::Field { path: p, pred: PredView::Exists(false) },
            FilterView::Field { path: q, pred: PredView::Eq(JsonView::Null) },
        ) => p == q,
        _ => false,
    }
}

/// A filter holds a test that takes absence and stored `null` together. Of a
/// disjunction of two, only the pair itself is looked at.
pub open spec fn tests_null(f: FilterView) -> bool
    decreases f,
{
    match f {
        FilterView::Or(parts) => if parts.len() == 2 {
            null_pair(parts[0], parts[1]) || null_pair(parts[1], parts[0])
        } else {
            exists|i: int| 0 <= i < parts.len() && tests_null(#[trigger] parts[i])
        },
        FilterView::And(parts) => exists|i: int|
            0 <= i < parts.len() && tests_null(#[trigger] parts[i]),
        FilterView::Not(inner) => tests_null(*inner),
        _ => false,
    }
}

fn is_null_pair(a: &Filter, b: &Filter) -> (r: bool)
    ensures
        r == null_pair(a@, b@),
{
    match (a, b) {
        (
            Filter::Field { path: p, pred: Pred::Exists(present) },
            Filter::Field { path: q, pred: Pred::Eq(v) },
        ) => !*present && v.is_null() && same_text(p.as_str(), q.as_str()),
        _ => false,
    }
}

fn some_tests_null(parts: &Vec<Filter>) -> (r: bool)
    ensures
        r == exists|i: int|
            0 <= i < parts@.len() && tests_null(#[trigger] filter_models(parts@)[i]),
    decreases parts,
{
    let mut i: usize = 0;
    let ghost all = filter_models(parts@);
    while i < parts.len()
        invariant
            all == filter_models(parts@),
            i <= parts@.len(),
            forall|k: int| 0 <= k < i ==> !tests_null(#[trigger] all[k]),
        decreases parts@.len() - i,
    {
        proof {
            assert(decreases_to!(*parts => parts@));
            assert(decreases_to!(parts@ => parts@[i as int]));
        }
        if filter_uses_is_null_style_or(&parts[i]) {
            proof {
                assert(tests_null(all[i as int]));
            }
            return true;
        }
        i = i + 1;
    }
    false
}

/// Whether a filter holds a test that takes absence and stored `null`
/// together.
fn filter_uses_is_null_style_or(f: &Filter) -> (r: bool)
    ensures
        r == tests_null(f@),
    decreases f,
{
    match f {
        Filter::Or(parts) => {
            proof {
                assert(decreases_to!(*f => f->Or_0));
                lemma_or_filter_model(*parts);
            }
            if parts.len() == 2 {
                is_null_pair(&parts[0], &parts[1]) || is_null_pair(&parts[1], &parts[0])
            } else {
                some_tests_null(parts)
            }
        },
        Filter::And(parts) => {
            proof {
                assert(decreases_to!(*f => f->And_0));
                lemma_and_filter_model(*parts);
                let whole = FilterView::And(filter_models(parts@));
                assert(tests_null(whole) == exists|i: int|
                    0 <= i < whole->And_0.len() && tests_null(#[trigger] whole->And_0[i]));
            }
            some_tests_null(parts)
        },
        Filter::Not(inner) => filter_uses_is_null_style_or(inner),
        _ => false,
    }
}

/// The notes that every compilation carries.
pub open spec fn standing_notes() -> Seq<Seq<char>> {
    seq![
        "SQL dialect is mimicry, not full SQL (see doc/SDA/DIALECTS.md)"@,
        "RQL-DQ1: compiles to portable Filter → Query VM (not SDA)"@,
    ]
}

/// The notes on the source, the null tests and the columns of a query.
pub open spec fn query_notes(q: SqlQueryView) -> Seq<Seq<char>> {
    let on_source = match q.from {
        Some(name) => seq![
            "FROM "@ + name + " ignored at compile time; host selects the collection"@,
        ],
        None => Seq::empty(),
    };
    let on_null = if q.where_clause is Some && tests_null(q.where_clause->0) {
        seq![
            "IS NULL / IS NOT NULL maps missing OR stored JSON null — not SDA Null≠absence; use pure SDA when that distinction matters (doc/SDA/DIALECTS.md)"@,
        ]
    } else {
        Seq::empty()
    };
    let on_columns = match q.columns {
        Some(cols) => seq![
            "SELECT "@ + joined(cols, ", "@) + " projects via Application Core path project"@,
        ],
        None => Seq::empty(),
    };
    standing_notes() + on_source + on_null + on_columns
}

/// What a query compiles to. A query without a condition matches everything.
pub open spec fn lowered_query(q: SqlQueryView) -> Result<CompiledPortableView, ErrorView> {
    if q.columns is Some && q.columns->0.len() == 0 {
        Err(sql_refusal("SELECT column list must not be empty"@))
    } else {
        Ok(
            CompiledPortableView {
                dialect: "sql"@,
                filter: match q.where_clause {
                    Some(f) => f,
                    None => FilterView::Always,
                },
                project: q.columns,
                notes: query_notes(q),
            },
        )
    }
}

/// Compiles a parsed query.
fn lower(q: SqlQuery) -> (r: Result<CompiledPortable, Error>)
    ensures
        outcome(r) == lowered_query(q@),
{
    let ghost model = q@;
    let mut notes: Vec<String> = Vec::new();
    notes.push("SQL dialect is mimicry, not full SQL (see doc/SDA/DIALECTS.md)".to_string());
    notes.push("RQL-DQ1: compiles to portable Filter → Query VM (not SDA)".to_string());
    proof {
        assert(texts(notes@) =~= standing_notes());
    }
    if let Some(name) = &q.from {
        notes.push(
            cat3(
                "FROM ",
                name.as_str(),
                " ignored at compile time; host selects the collection",
            ),
        );
    }
    let filter = match q.where_clause {
        Some(f) => f,
        None => Filter::Always,
    };
    if filter_uses_is_null_style_or(&filter) {
        notes.push(
            "IS NULL / IS NOT NULL maps missing OR stored JSON null — not SDA Null≠absence; use pure SDA when that distinction matters (doc/SDA/DIALECTS.md)".to_string(),
        );
    }
    match q.columns {
        None => {
            proof {
                assert(texts(notes@) =~= query_notes(model));
            }
            Ok(CompiledPortable::new("sql", filter, None, notes))
        },
        Some(cols) => {
            if cols.len() == 0 {
                return Err(sql_error("SELECT column list must not be empty"));
            }
            notes.push(
                cat3(
                    "SELECT ",
                    join(&cols, ", ").as_str(),
                    " projects via Application Core path project",
                ),
            );
            proof {
                assert(texts(notes@) =~= query_notes(model));
            }
            Ok(CompiledPortable::new("sql", filter, Some(cols), notes))
        },
    }
}

/// What an SQL text compiles to.
pub open spec fn sql_compiled(source: Seq<char>) -> Result<CompiledPortableView, ErrorView> {
    let text = trimmed(source);
    if text.len() == 0 {
        Err(sql_refusal("empty query"@))
    } else {
        match lexed(text, 0) {
            Err(e) => Err(e),
            Ok(toks) => match query_at(toks, 0) {
                Err(e) => Err(e),
                Ok((q, end)) => if end < toks.len() {
                    Err(sql_refusal("unexpected trailing token "@ + tok_shown(toks[end])))
                } else {
                    lowered_query(q)
                },
            },
        }
    }
}

/// Compiles an SQL text to a portable filter and an optional projection.
pub fn compile_sql(source: &str) -> (r: Result<CompiledPortable, Error>)
    ensures
        outcome(r) == sql_compiled(source@),
{
    let text = trim(source);
    if text.as_str().is_empty() {
        return Err(sql_error("empty query"));
    }
    let tokens = tokenize(text.as_str())?;
    let mut p = Parser::new(tokens);
    let ast = p.parse_query()?;
    p.expect_end()?;
    lower(ast)
}

/// A null test matches where the field is absent and where it is `null`, and
/// nowhere else.
pub proof fn law_null_test(path: Seq<char>, doc: JsonView)
    ensures
        filter_matches(null_test(path), doc) <==> (field_value(doc, path) is None || field_value(
            doc,
            path,
        ) == Some(JsonView::Null)),
{
    let parts = seq![
        FilterView::Field { path, pred: PredView::Exists(false) },
        FilterView::Field { path, pred: PredView::Eq(JsonView::Null) },
    ];
    let whole = FilterView::Or(parts);
    assert(null_test(path) == whole);
    assert(filter_matches(whole->Or_0[0], doc) <==> field_value(doc, path) is None);
    assert(filter_matches(whole->Or_0[1], doc) <==> field_value(doc, path) == Some(
        JsonView::Null,
    ));
}

/// `text` with every quote doubled.
pub open spec fn doubled_quotes(text: Seq<char>) -> Seq<char>
    decreases text.len(),
{
    if text.len() == 0 {
        Seq::empty()
    } else if text[0] == '\'' {
        seq!['\'', '\''] + doubled_quotes(text.drop_first())
    } else {
        seq![text[0]] + doubled_quotes(text.drop_first())
    }
}

/// A text whose quotes are doubled, set between quotes, is read as that text,
/// whatever stands before it, and whatever stands behind it other than a
/// further quote.
pub proof fn law_quoted_literal(before: Seq<char>, text: Seq<char>, behind: Seq<char>)
    requires
        behind.len() > 0 ==> behind[0] != '\'',
    ensures
        ({
            let whole = before + seq!['\''] + doubled_quotes(text) + seq!['\''] + behind;
            let end = before.len() + doubled_quotes(text).len() + 2;
            lexeme(whole, before.len() as int) == Lexeme::Token(TokView::Literal(text), end as int)
        }),
{
    let whole = before + seq!['\''] + doubled_quotes(text) + seq!['\''] + behind;
    lemma_quoted_rest(before + seq!['\''], text, behind);
    assert(whole[before.len() as int] == '\'');
}

/// Reading behind the opening quote gives the rest of the text.
proof fn lemma_quoted_rest(before: Seq<char>, text: Seq<char>, behind: Seq<char>)
    requires
        behind.len() > 0 ==> behind[0] != '\'',
    ensures
        single_quoted(
            before + doubled_quotes(text) + seq!['\''] + behind,
            before.len() as int,
        ) == (text, (before.len() + doubled_quotes(text).len() + 1) as int),
    decreases text.len(),
{
    let whole = before + doubled_quotes(text) + seq!['\''] + behind;
    let at = before.len() as int;
    if text.len() == 0 {
        assert(whole[at] == '\'');
        assert(at + 1 < whole.len() ==> whole[at + 1] == behind[0]);
        assert(single_quoted(whole, at).0 =~= text);
    } else {
        let rest = text.drop_first();
        let step = if text[0] == '\'' {
            seq!['\'', '\'']
        } else {
            seq![text[0]]
        };
        lemma_quoted_rest(before + step, rest, behind);
        assert((before + step) + doubled_quotes(rest) + seq!['\''] + behind =~= whole);
        assert(whole[at] == text[0]);
        if text[0] == '\'' {
            assert(whole[at + 1] == '\'');
        }
        assert(seq![text[0]] + rest =~= text);
        assert(single_quoted(whole, at).0 =~= text);
    }
}

} // verus!
