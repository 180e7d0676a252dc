//! RQL: `from` / `enrich` / `project` text compiled to SDA program text.
//!
//! Every construct becomes part of one pipeline of match bags; the SDA
//! evaluator runs it.
use crate::dialects::sql::{cut, digit_char, is_digit, name_start, starts_name};
use crate::dialects::{CompiledSda, CompiledSdaView, SdaParse, SdaShape};
use crate::error::{outcome, Error, ErrorView};
use crate::text::{
    cat2, cat3, cat4, cat5, chars_of, compare_text, debug_char, debug_quoted, debug_text, decimal,
    decimal_text, is_white_space, join, joined, lowercase, lowered, quoted_char, same_text,
    text_order, texts, trim, trimmed, white_space, Order,
};
use vstd::prelude::*;

verus! {

/// One token.
#[derive(Debug)]
pub enum Tok {
    /// A name or keyword.
    Ident(String),
    /// `{`
    LBrace,
    /// `}`
    RBrace,
    /// `=`
    Eq,
    /// `,`
    Comma,
    /// `.`
    Dot,
}

/// Model of a [`Tok`].
#[verifier::ext_equal]
pub enum TokView {
    Ident(Seq<char>),
    LBrace,
    RBrace,
    Eq,
    Comma,
    Dot,
}

impl View for Tok {
    type V = TokView;

    open spec fn view(&self) -> TokView {
        match self {
            Tok::Ident(s) => TokView::Ident(s@),
            Tok::LBrace => TokView::LBrace,
            Tok::RBrace => TokView::RBrace,
            Tok::Eq => TokView::Eq,
            Tok::Comma => TokView::Comma,
            Tok::Dot => TokView::Dot,
        }
    }
}

/// The models of tokens.
pub open spec fn tok_views(v: Seq<Tok>) -> Seq<TokView> {
    v.map_values(|t: Tok| t@)
}

/// How the token at a position, or the end of the input, is shown.
pub open spec fn shown_at(toks: Seq<TokView>, i: int) -> Seq<char> {
    if 0 <= i < toks.len() {
        match toks[i] {
            TokView::Ident(s) => "Ident("@ + debug_quoted(s) + ")"@,
            TokView::LBrace => "LBrace"@,
            TokView::RBrace => "RBrace"@,
            TokView::Eq => "Eq"@,
            TokView::Comma => "Comma"@,
            TokView::Dot => "Dot"@,
        }
    } else {
        "Eof"@
    }
}

fn show_at(toks: &Vec<Tok>, i: usize) -> (r: String)
    ensures
        r@ == shown_at(tok_views(toks@), i as int),
{
    if i < toks.len() {
        match &toks[i] {
            Tok::Ident(s) => cat3("Ident(", debug_text(s.as_str()).as_str(), ")"),
            Tok::LBrace => "LBrace".to_string(),
            Tok::RBrace => "RBrace".to_string(),
            Tok::Eq => "Eq".to_string(),
            Tok::Comma => "Comma".to_string(),
            Tok::Dot => "Dot".to_string(),
        }
    } else {
        "Eof".to_string()
    }
}

/// The refusal with a message.
pub open spec fn rql_refusal(message: Seq<char>) -> ErrorView {
    ErrorView::QueryInvalid("dialect 'rql': "@ + message)
}

fn rql_error(message: &str) -> (r: Error)
    ensures
        r@ == rql_refusal(message@),
{
    Error::QueryInvalid(cat2("dialect 'rql': ", message))
}

/// Where the name that is being read at `i` ends.
pub open spec fn word_end(s: Seq<char>, i: int) -> int
    decreases s.len() - i,
{
    if 0 <= i < s.len() && (starts_name(s[i]) || is_digit(s[i])) {
        word_end(s, i + 1)
    } else {
        i
    }
}

/// Where the line that `i` stands in ends.
pub open spec fn line_end(s: Seq<char>, i: int) -> int
    decreases s.len() - i,
{
    if 0 <= i < s.len() && s[i] != '\n' {
        line_end(s, i + 1)
    } else {
        i
    }
}

proof fn lemma_ends(s: Seq<char>, i: int)
    requires
        0 <= i <= s.len(),
    ensures
        i <= word_end(s, i) <= s.len(),
        i <= line_end(s, i) <= s.len(),
    decreases s.len() - i,
{
    if i < s.len() {
        lemma_ends(s, i + 1);
    }
}

/// What stands at one position of the input.
pub enum Lexeme {
    /// White space or a comment, up to a position.
    Space(int),
    /// A token, and the position behind it.
    Token(TokView, int),
    /// No token starts with this character.
    Refused,
}

/// What stands at position `i`.
pub open spec fn lexeme(s: Seq<char>, i: int) -> Lexeme {
    let c = s[i];
    if white_space(c) {
        Lexeme::Space(i + 1)
    } else if c == '-' && i + 1 < s.len() && s[i + 1] == '-' {
        Lexeme::Space(line_end(s, i + 1))
    } else if c == '{' {
        Lexeme::Token(TokView::LBrace, i + 1)
    } else if c == '}' {
        Lexeme::Token(TokView::RBrace, i + 1)
    } else if c == '=' {
        Lexeme::Token(TokView::Eq, i + 1)
    } else if c == ',' {
        Lexeme::Token(TokView::Comma, i + 1)
    } else if c == '.' {
        Lexeme::Token(TokView::Dot, i + 1)
    } else if starts_name(c) {
        Lexeme::Token(
            TokView::Ident(s.subrange(i, word_end(s, i + 1))),
            word_end(s, i + 1),
        )
    } else {
        Lexeme::Refused
    }
}

/// What stands at a position ends behind it and within the input.
pub proof fn lemma_lexeme_end(s: Seq<char>, i: int)
    requires
        0 <= i < s.len(),
    ensures
        match lexeme(s, i) {
            Lexeme::Space(end) => i < end <= s.len(),
            Lexeme::Token(_, end) => i < end <= s.len(),
            Lexeme::Refused => true,
        },
{
    lemma_ends(s, i + 1);
}

/// The tokens of the input from position `i` on, or the first refusal.
pub open spec fn lexed(s: Seq<char>, i: int) -> Result<Seq<TokView>, ErrorView>
    decreases s.len() - i,
{
    if i < 0 || i >= s.len() {
        Ok(Seq::empty())
    } else {
        proof {
            lemma_lexeme_end(s, i);
        }
        match lexeme(s, i) {
            Lexeme::Space(end) => lexed(s, end),
            Lexeme::Token(t, end) => match lexed(s, end) {
                Ok(rest) => Ok(seq![t] + rest),
                Err(e) => Err(e),
            },
            Lexeme::Refused => Err(rql_refusal("unexpected character "@ + quoted_char(s[i]))),
        }
    }
}

/// `done` followed by what the rest of the input gives.
pub open spec fn lexed_after(
    done: Seq<TokView>,
    rest: Result<Seq<TokView>, ErrorView>,
) -> Result<Seq<TokView>, ErrorView> {
    match rest {
        Ok(more) => Ok(done + more),
        Err(e) => Err(e),
    }
}

fn read_token(s: &Vec<char>, i: usize) -> (r: Option<(Tok, usize)>)
    requires
        i < s@.len(),
        !(lexeme(s@, i as int) is Space),
    ensures
        match r {
            Some(t) => lexeme(s@, i as int) == Lexeme::Token(t.0@, t.1 as int) && i < t.1
                <= s@.len(),
            None => lexeme(s@, i as int) is Refused,
        },
{
    let c = s[i];
    let bound = s.len();
    if c == '{' {
        Some((Tok::LBrace, i + 1))
    } else if c == '}' {
        Some((Tok::RBrace, i + 1))
    } else if c == '=' {
        Some((Tok::Eq, i + 1))
    } else if c == ',' {
        Some((Tok::Comma, i + 1))
    } else if c == '.' {
        Some((Tok::Dot, i + 1))
    } else if name_start(c) {
        let mut end: usize = i + 1;
        while end < s.len() && (name_start(s[end]) || digit_char(s[end]))
            invariant
                i < end <= s@.len(),
                word_end(s@, i + 1) == word_end(s@, end as int),
            decreases s@.len() - end,
        {
            end = end + 1;
        }
        Some((Tok::Ident(cut(s, i, end)), end))
    } else {
        None
    }
}

/// Splits the input into tokens.
pub fn tokenize(src: &str) -> (r: Result<Vec<Tok>, Error>)
    ensures
        match r {
            Ok(toks) => lexed(src@, 0) == Ok::<Seq<TokView>, ErrorView>(tok_views(toks@)),
            Err(e) => lexed(src@, 0) == Err::<Seq<TokView>, ErrorView>(e@),
        },
{
    let s = chars_of(src);
    let mut out: Vec<Tok> = Vec::new();
    let mut i: usize = 0;
    proof {
        assert(lexed_after(tok_views(out@), lexed(s@, 0)) == lexed(s@, 0)) by {
            if let Ok(rest) = lexed(s@, 0) {
                assert(tok_views(out@) + rest =~= rest);
            }
        }
    }
    while i < s.len()
        invariant
            s@ == src@,
            i <= s@.len(),
            lexed(src@, 0) == lexed_after(tok_views(out@), lexed(s@, i as int)),
        decreases s@.len() - i,
    {
        proof {
            lemma_lexeme_end(s@, i as int);
        }
        if is_white_space(s[i]) {
            i = i + 1;
            continue;
        }
        if s[i] == '-' && s.len() - i > 1 && s[i + 1] == '-' {
            let mut end: usize = i + 1;
            while end < s.len() && s[end] != '\n'
                invariant
                    i < end <= s@.len(),
                    line_end(s@, i + 1) == line_end(s@, end as int),
                decreases s@.len() - end,
            {
                end = end + 1;
            }
            i = end;
            continue;
        }
        match read_token(&s, i) {
            Some(t) => {
                let ghost before = tok_views(out@);
                let ghost tok = t.0@;
                out.push(t.0);
                proof {
                    assert(tok_views(out@) =~= before.push(tok));
                    if let Ok(rest) = lexed(s@, t.1 as int) {
                        assert(before + (seq![tok] + rest) =~= tok_views(out@) + rest);
                    }
                }
                i = t.1;
            },
            None => {
                return Err(
                    rql_error(cat2("unexpected character ", debug_char(s[i]).as_str()).as_str()),
                );
            },
        }
    }
    proof {
        assert(tok_views(out@) + Seq::<TokView>::empty() =~= tok_views(out@));
    }
    Ok(out)
}

/// The token at position `i` is the keyword `kw`, in any case.
pub open spec fn keyword_at(toks: Seq<TokView>, i: int, kw: Seq<char>) -> bool {
    0 <= i < toks.len() && match toks[i] {
        TokView::Ident(s) => lowered(s) == lowered(kw),
        _ => false,
    }
}

/// The token at position `i` is `t`.
pub open spec fn token_at(toks: Seq<TokView>, i: int, t: TokView) -> bool {
    0 <= i < toks.len() && toks[i] == t
}

fn is_keyword(toks: &Vec<Tok>, i: usize, kw: &str) -> (r: bool)
    ensures
        r == keyword_at(tok_views(toks@), i as int, kw@),
{
    if i < toks.len() {
        match &toks[i] {
            Tok::Ident(s) => same_text(
                lowercase(s.as_str()).as_str(),
                lowercase(kw).as_str(),
            ),
            _ => false,
        }
    } else {
        false
    }
}

fn is_dot(toks: &Vec<Tok>, i: usize) -> (r: bool)
    ensures
        r == token_at(tok_views(toks@), i as int, TokView::Dot),
{
    i < toks.len() && match &toks[i] {
        Tok::Dot => true,
        _ => false,
    }
}

fn is_comma(toks: &Vec<Tok>, i: usize) -> (r: bool)
    ensures
        r == token_at(tok_views(toks@), i as int, TokView::Comma),
{
    i < toks.len() && match &toks[i] {
        Tok::Comma => true,
        _ => false,
    }
}

fn is_open(toks: &Vec<Tok>, i: usize) -> (r: bool)
    ensures
        r == token_at(tok_views(toks@), i as int, TokView::LBrace),
{
    i < toks.len() && match &toks[i] {
        Tok::LBrace => true,
        _ => false,
    }
}

fn is_close(toks: &Vec<Tok>, i: usize) -> (r: bool)
    ensures
        r == token_at(tok_views(toks@), i as int, TokView::RBrace),
{
    i < toks.len() && match &toks[i] {
        Tok::RBrace => true,
        _ => false,
    }
}

fn is_eq(toks: &Vec<Tok>, i: usize) -> (r: bool)
    ensures
        r == token_at(tok_views(toks@), i as int, TokView::Eq),
{
    i < toks.len() && match &toks[i] {
        Tok::Eq => true,
        _ => false,
    }
}

/// The name at position `i`.
pub open spec fn ident_at(toks: Seq<TokView>, i: int) -> Result<Seq<char>, ErrorView> {
    if 0 <= i < toks.len() && toks[i] is Ident {
        Ok(toks[i]->Ident_0)
    } else {
        Err(rql_refusal("expected identifier, got "@ + shown_at(toks, i)))
    }
}

fn expect_ident(toks: &Vec<Tok>, i: usize) -> (r: Result<String, Error>)
    ensures
        match r {
            Ok(s) => ident_at(tok_views(toks@), i as int) == Ok::<Seq<char>, ErrorView>(s@) && i
                < toks.len(),
            Err(e) => ident_at(tok_views(toks@), i as int) == Err::<Seq<char>, ErrorView>(e@),
        },
{
    if i < toks.len() {
        match &toks[i] {
            Tok::Ident(s) => {
                return Ok(s.clone());
            },
            _ => {},
        }
    }
    Err(rql_error(cat2("expected identifier, got ", show_at(toks, i).as_str()).as_str()))
}

/// The refusal of a missing keyword.
pub open spec fn keyword_missing(toks: Seq<TokView>, i: int, kw: Seq<char>) -> ErrorView {
    rql_refusal("expected keyword "@ + debug_quoted(kw) + ", got "@ + shown_at(toks, i))
}

fn expect_kw(toks: &Vec<Tok>, i: usize, kw: &str) -> (r: Result<(), Error>)
    ensures
        match r {
            Ok(_) => keyword_at(tok_views(toks@), i as int, kw@) && i < toks.len(),
            Err(e) => !keyword_at(tok_views(toks@), i as int, kw@) && e@ == keyword_missing(
                tok_views(toks@),
                i as int,
                kw@,
            ),
        },
{
    if is_keyword(toks, i, kw) {
        Ok(())
    } else {
        Err(
            rql_error(
                cat4(
                    "expected keyword ",
                    debug_text(kw).as_str(),
                    ", got ",
                    show_at(toks, i).as_str(),
                ).as_str(),
            ),
        )
    }
}

/// The names that follow `parts` at `i`, each behind a dot, and where they end.
pub open spec fn path_tail(toks: Seq<TokView>, parts: Seq<Seq<char>>, i: int) -> Result<
    (Seq<Seq<char>>, int),
    ErrorView,
>
    decreases toks.len() - i,
{
    if token_at(toks, i, TokView::Dot) {
        match ident_at(toks, i + 1) {
            Ok(name) => path_tail(toks, parts.push(name), i + 2),
            Err(e) => Err(e),
        }
    } else {
        Ok((parts, i))
    }
}

/// The dotted path at `i` and where it ends.
pub open spec fn path_at(toks: Seq<TokView>, i: int) -> Result<(Seq<Seq<char>>, int), ErrorView> {
    match ident_at(toks, i) {
        Ok(name) => path_tail(toks, seq![name], i + 1),
        Err(e) => Err(e),
    }
}

fn parse_path_tail(toks: &Vec<Tok>, first: String, start: usize) -> (r: Result<
    (Vec<String>, usize),
    Error,
>)
    requires
        start <= toks.len(),
    ensures
        ({
            let s = path_tail(tok_views(toks@), seq![first@], start as int);
            match r {
                Ok(p) => s == Ok::<(Seq<Seq<char>>, int), ErrorView>((texts(p.0@), p.1 as int))
                    && start <= p.1 <= toks.len(),
                Err(e) => s == Err::<(Seq<Seq<char>>, int), ErrorView>(e@),
            }
        }),
{
    let ghost all = tok_views(toks@);
    let ghost head = seq![first@];
    let mut parts: Vec<String> = Vec::new();
    parts.push(first);
    let mut i: usize = start;
    proof {
        assert(texts(parts@) =~= head);
    }
    while is_dot(toks, i)
        invariant
            all == tok_views(toks@),
            head == seq![first@],
            start <= i <= toks.len(),
            path_tail(all, head, start as int) == path_tail(all, texts(parts@), i as int),
        decreases toks@.len() - i,
    {
        let ghost before = texts(parts@);
        let name = expect_ident(toks, i + 1)?;
        parts.push(name);
        proof {
            assert(texts(parts@) =~= before.push(name@));
        }
        i = i + 2;
    }
    Ok((parts, i))
}

fn parse_path(toks: &Vec<Tok>, i: usize) -> (r: Result<(Vec<String>, usize), Error>)
    ensures
        ({
            let s = path_at(tok_views(toks@), i as int);
            match r {
                Ok(p) => s == Ok::<(Seq<Seq<char>>, int), ErrorView>((texts(p.0@), p.1 as int))
                    && i < p.1 <= toks.len(),
                Err(e) => s == Err::<(Seq<Seq<char>>, int), ErrorView>(e@),
            }
        }),
{
    let first = expect_ident(toks, i)?;
    parse_path_tail(toks, first, i + 1)
}

/// How many matches an enrichment expects.
#[derive(Debug, Clone, Copy, PartialEq, Eq, Structural)]
pub enum Cardinality {
    /// Exactly one.
    ExactlyOne,
    /// None or one.
    Optional,
    /// Any number.
    Many,
}

/// One enrichment.
#[derive(Debug)]
pub struct EnrichStep {
    /// Name of the field that is added.
    pub output: String,
    /// Collection that is matched.
    pub source: String,
    /// Key on the left.
    pub left_key: Vec<String>,
    /// Key on the right.
    pub right_key: Vec<String>,
    /// How many matches are expected.
    pub cardinality: Cardinality,
}

/// Model of an [`EnrichStep`].
#[verifier::ext_equal]
pub struct EnrichView {
    pub output: Seq<char>,
    pub source: Seq<char>,
    pub left_key: Seq<Seq<char>>,
    pub right_key: Seq<Seq<char>>,
    pub cardinality: Cardinality,
}

impl View for EnrichStep {
    type V = EnrichView;

    open spec fn view(&self) -> EnrichView {
        EnrichView {
            output: self.output@,
            source: self.source@,
            left_key: texts(self.left_key@),
            right_key: texts(self.right_key@),
            cardinality: self.cardinality,
        }
    }
}

/// The models of enrichments.
pub open spec fn enrich_views(v: Seq<EnrichStep>) -> Seq<EnrichView> {
    v.map_values(|e: EnrichStep| e@)
}

/// The cardinality that a word names, in any case.
pub open spec fn cardinality_of(word: Seq<char>) -> Result<Cardinality, ErrorView> {
    let w = lowered(word);
    if w == "exactly_one"@ || w == "exactlyone"@ || w == "one"@ {
        Ok(Cardinality::ExactlyOne)
    } else if w == "optional"@ || w == "opt"@ {
        Ok(Cardinality::Optional)
    } else if w == "many"@ {
        Ok(Cardinality::Many)
    } else {
        Err(
            rql_refusal(
                "unknown expect cardinality "@ + debug_quoted(w)
                    + "; use exactly_one, optional, or many"@,
            ),
        )
    }
}

fn read_cardinality(word: &str) -> (r: Result<Cardinality, Error>)
    ensures
        match r {
            Ok(c) => cardinality_of(word@) == Ok::<Cardinality, ErrorView>(c),
            Err(e) => cardinality_of(word@) == Err::<Cardinality, ErrorView>(e@),
        },
{
    let w = lowercase(word);
    let w = w.as_str();
    if same_text(w, "exactly_one") || same_text(w, "exactlyone") || same_text(w, "one") {
        Ok(Cardinality::ExactlyOne)
    } else if same_text(w, "optional") || same_text(w, "opt") {
        Ok(Cardinality::Optional)
    } else if same_text(w, "many") {
        Ok(Cardinality::Many)
    } else {
        Err(
            rql_error(
                cat3(
                    "unknown expect cardinality ",
                    debug_text(w).as_str(),
                    "; use exactly_one, optional, or many",
                ).as_str(),
            ),
        )
    }
}

/// The enrichment at `i`, behind its first keyword, and where it ends.
pub open spec fn enrich_at(toks: Seq<TokView>, i: int) -> Result<(EnrichView, int), ErrorView> {
    match ident_at(toks, i) {
        Err(e) => Err(e),
        Ok(output) => if !keyword_at(toks, i + 1, "using"@) {
            Err(keyword_missing(toks, i + 1, "using"@))
        } else {
            match ident_at(toks, i + 2) {
                Err(e) => Err(e),
                Ok(source) => if !keyword_at(toks, i + 3, "matching"@) {
                    Err(keyword_missing(toks, i + 3, "matching"@))
                } else {
                    match path_at(toks, i + 4) {
                        Err(e) => Err(e),
                        Ok((left_key, j)) => if !token_at(toks, j, TokView::Eq) {
                            Err(
                                rql_refusal(
                                    "expected '=' in matching clause, got "@ + shown_at(toks, j),
                                ),
                            )
                        } else {
                            match path_at(toks, j + 1) {
                                Err(e) => Err(e),
                                Ok((right_key, k)) => if !keyword_at(toks, k, "expect"@) {
                                    Err(keyword_missing(toks, k, "expect"@))
                                } else {
                                    match ident_at(toks, k + 1) {
                                        Err(e) => Err(e),
                                        Ok(word) => match cardinality_of(word) {
                                            Err(e) => Err(e),
                                            Ok(cardinality) => Ok(
                                                (
                                                    EnrichView {
                                                        output,
                                                        source,
                                                        left_key,
                                                        right_key,
                                                        cardinality,
                                                    },
                                                    k + 2,
                                                ),
                                            ),
                                        },
                                    }
                                },
                            }
                        },
                    }
                },
            }
        },
    }
}

fn parse_enrich(toks: &Vec<Tok>, i: usize) -> (r: Result<(EnrichStep, usize), Error>)
    ensures
        ({
            let s = enrich_at(tok_views(toks@), i as int);
            match r {
                Ok(p) => s == Ok::<(EnrichView, int), ErrorView>((p.0@, p.1 as int)) && i < p.1
                    <= toks.len(),
                Err(e) => s == Err::<(EnrichView, int), ErrorView>(e@),
            }
        }),
{
    let output = expect_ident(toks, i)?;
    expect_kw(toks, i + 1, "using")?;
    let source = expect_ident(toks, i + 2)?;
    expect_kw(toks, i + 3, "matching")?;
    let left = parse_path(toks, i + 4)?;
    let j = left.1;
    if !is_eq(toks, j) {
        return Err(
            rql_error(
                cat2("expected '=' in matching clause, got ", show_at(toks, j).as_str()).as_str(),
            ),
        );
    }
    let right = parse_path(toks, j + 1)?;
    let k = right.1;
    expect_kw(toks, k, "expect")?;
    let word = expect_ident(toks, k + 1)?;
    let cardinality = read_cardinality(word.as_str())?;
    Ok((EnrichStep { output, source, left_key: left.0, right_key: right.0, cardinality }, k + 2))
}

/// A field of a projection.
#[derive(Debug)]
pub enum ProjectField {
    /// A dotted path.
    Path(Vec<String>),
    /// A bag whose elements are projected.
    Nested {
        /// Name of the bag.
        name: String,
        /// Fields of its elements.
        fields: Vec<ProjectField>,
    },
}

/// Model of a [`ProjectField`].
#[verifier::ext_equal]
pub enum FieldView {
    Path(Seq<Seq<char>>),
    Nested { name: Seq<char>, fields: Seq<FieldView> },
}

impl ProjectField {
    /// The field as its model.
    pub open spec fn model(&self) -> FieldView
        decreases self,
    {
        match self {
            ProjectField::Path(p) => FieldView::Path(texts(p@)),
            ProjectField::Nested { name, fields } => FieldView::Nested {
                name: name@,
                fields: Seq::new(
                    fields@.len(),
                    |i: int|
                        if 0 <= i < fields@.len() {
                            fields@[i].model()
                        } else {
                            FieldView::Path(Seq::empty())
                        },
                ),
            },
        }
    }
}

impl View for ProjectField {
    type V = FieldView;

    open spec fn view(&self) -> FieldView {
        self.model()
    }
}

/// The models of fields.
pub open spec fn field_models(v: Seq<ProjectField>) -> Seq<FieldView> {
    Seq::new(v.len(), |i: int| v[i]@)
}

proof fn lemma_nested_model(name: String, fields: Vec<ProjectField>)
    ensures
        (ProjectField::Nested { name, fields })@ == (FieldView::Nested {
            name: name@,
            fields: field_models(fields@),
        }),
{
    let f = ProjectField::Nested { name, fields };
    assert(f@->fields =~= field_models(fields@));
}

/// The field at `i` and where it ends.
pub open spec fn field_at(toks: Seq<TokView>, i: int) -> Result<(FieldView, int), ErrorView>
    decreases toks.len() - i, 0int,
{
    match ident_at(toks, i) {
        Err(e) => Err(e),
        Ok(name) => if token_at(toks, i + 1, TokView::LBrace) {
            match fields_at(toks, Seq::empty(), i + 2) {
                Err(e) => Err(e),
                Ok((fields, j)) => Ok((FieldView::Nested { name, fields }, j)),
            }
        } else {
            match path_tail(toks, seq![name], i + 1) {
                Err(e) => Err(e),
                Ok((path, j)) => Ok((FieldView::Path(path), j)),
            }
        },
    }
}

/// The fields that follow `done` at `i` up to the closing brace, and where they
/// end. A comma behind a field may be left out.
pub open spec fn fields_at(toks: Seq<TokView>, done: Seq<FieldView>, i: int) -> Result<
    (Seq<FieldView>, int),
    ErrorView,
>
    decreases toks.len() - i, 1int,
{
    if token_at(toks, i, TokView::RBrace) {
        Ok((done, i + 1))
    } else if i < 0 || i >= toks.len() {
        Err(rql_refusal("expected '}' to close project, got "@ + shown_at(toks, i)))
    } else {
        match field_at(toks, i) {
            Err(e) => Err(e),
            Ok((f, j)) => {
                let k = if token_at(toks, j, TokView::Comma) {
                    j + 1
                } else {
                    j
                };
                if i < k <= toks.len() {
                    fields_at(toks, done.push(f), k)
                } else {
                    Ok((done, i))
                }
            },
        }
    }
}

/// The projection at `i`, with its braces, and where it ends.
pub open spec fn block_at(toks: Seq<TokView>, i: int) -> Result<
    (Seq<FieldView>, int),
    ErrorView,
> {
    if token_at(toks, i, TokView::LBrace) {
        fields_at(toks, Seq::empty(), i + 1)
    } else {
        Err(rql_refusal("expected '{' after project, got "@ + shown_at(toks, i)))
    }
}

fn parse_project_field(toks: &Vec<Tok>, i: usize) -> (r: Result<(ProjectField, usize), Error>)
    ensures
        ({
            let s = field_at(tok_views(toks@), i as int);
            match r {
                Ok(p) => s == Ok::<(FieldView, int), ErrorView>((p.0@, p.1 as int)) && i < p.1
                    <= toks.len(),
                Err(e) => s == Err::<(FieldView, int), ErrorView>(e@),
            }
        }),
    decreases toks@.len() - i, 0int,
{
    let name = expect_ident(toks, i)?;
    if is_open(toks, i + 1) {
        let nested = parse_fields(toks, i + 2)?;
        proof {
            lemma_nested_model(name, nested.0);
        }
        return Ok((ProjectField::Nested { name, fields: nested.0 }, nested.1));
    }
    let path = parse_path_tail(toks, name, i + 1)?;
    Ok((ProjectField::Path(path.0), path.1))
}

fn parse_fields(toks: &Vec<Tok>, start: usize) -> (r: Result<(Vec<ProjectField>, usize), Error>)
    requires
        start <= toks.len(),
    ensures
        ({
            let s = fields_at(tok_views(toks@), Seq::empty(), start as int);
            match r {
                Ok(p) => s == Ok::<(Seq<FieldView>, int), ErrorView>(
                    (field_models(p.0@), p.1 as int),
                ) && start < p.1 <= toks.len(),
                Err(e) => s == Err::<(Seq<FieldView>, int), ErrorView>(e@),
            }
        }),
    decreases toks@.len() - start, 1int,
{
    let ghost all = tok_views(toks@);
    let mut fields: Vec<ProjectField> = Vec::new();
    let mut i: usize = start;
    proof {
        assert(field_models(fields@) =~= Seq::empty());
    }
    while i < toks.len() && !is_close(toks, i)
        invariant
            all == tok_views(toks@),
            start <= i <= toks.len(),
            fields_at(all, Seq::empty(), start as int) == fields_at(
                all,
                field_models(fields@),
                i as int,
            ),
        decreases toks@.len() - i,
    {
        let ghost before = field_models(fields@);
        let field = parse_project_field(toks, i)?;
        fields.push(field.0);
        proof {
            assert(field_models(fields@) =~= before.push(field.0@));
        }
        if is_comma(toks, field.1) {
            i = field.1 + 1;
        } else {
            i = field.1;
        }
    }
    if is_close(toks, i) {
        Ok((fields, i + 1))
    } else {
        Err(
            rql_error(
                cat2("expected '}' to close project, got ", show_at(toks, i).as_str()).as_str(),
            ),
        )
    }
}

/// A parsed program.
#[derive(Debug)]
pub struct RqlProgram {
    /// Collection that the rows come from.
    pub from: Option<String>,
    /// Enrichments in order.
    pub enriches: Vec<EnrichStep>,
    /// Projection, where there is one.
    pub project: Option<Vec<ProjectField>>,
}

/// Model of an [`RqlProgram`].
#[verifier::ext_equal]
pub struct ProgramView {
    pub from: Option<Seq<char>>,
    pub enriches: Seq<EnrichView>,
    pub project: Option<Seq<FieldView>>,
}

impl View for RqlProgram {
    type V = ProgramView;

    open spec fn view(&self) -> ProgramView {
        ProgramView {
            from: match self.from {
                Some(s) => Some(s@),
                None => None,
            },
            enriches: enrich_views(self.enriches@),
            project: match self.project {
                Some(f) => Some(field_models(f@)),
                None => None,
            },
        }
    }
}

/// The program that goes on at `i` behind what was read.
pub open spec fn program_at(toks: Seq<TokView>, p: ProgramView, i: int) -> Result<
    ProgramView,
    ErrorView,
>
    decreases toks.len() - i,
{
    if i < 0 || i >= toks.len() {
        if p.from is None && p.enriches.len() == 0 {
            Err(
                rql_refusal(
                    "program needs `from <collection>` or at least one enrich"@,
                ),
            )
        } else {
            Ok(p)
        }
    } else if keyword_at(toks, i, "from"@) {
        match ident_at(toks, i + 1) {
            Err(e) => Err(e),
            Ok(name) => program_at(toks, ProgramView { from: Some(name), ..p }, i + 2),
        }
    } else if keyword_at(toks, i, "enrich"@) {
        match enrich_at(toks, i + 1) {
            Err(e) => Err(e),
            Ok((step, j)) => if i < j <= toks.len() {
                program_at(toks, ProgramView { enriches: p.enriches.push(step), ..p }, j)
            } else {
                Ok(p)
            },
        }
    } else if keyword_at(toks, i, "project"@) {
        if p.project is Some {
            Err(rql_refusal("only one project clause is allowed"@))
        } else {
            match block_at(toks, i + 1) {
                Err(e) => Err(e),
                Ok((fields, j)) => if i < j <= toks.len() {
                    program_at(toks, ProgramView { project: Some(fields), ..p }, j)
                } else {
                    Ok(p)
                },
            }
        }
    } else {
        Err(
            rql_refusal(
                "unexpected token "@ + shown_at(toks, i) + "; expected from/enrich/project"@,
            ),
        )
    }
}

/// The program that a source spells.
pub open spec fn program_in(source: Seq<char>) -> Result<ProgramView, ErrorView> {
    match lexed(source, 0) {
        Err(e) => Err(e),
        Ok(toks) => program_at(
            toks,
            ProgramView { from: None, enriches: Seq::empty(), project: None },
            0,
        ),
    }
}

/// Parses a program.
pub fn parse_rql(source: &str) -> (r: Result<RqlProgram, Error>)
    ensures
        outcome(r) == program_in(source@),
{
    let toks = tokenize(source)?;
    let ghost all = tok_views(toks@);
    let mut p = RqlProgram { from: None, enriches: Vec::new(), project: None };
    let mut i: usize = 0;
    proof {
        assert(p@ =~= ProgramView { from: None, enriches: Seq::empty(), project: None });
    }
    while i < toks.len()
        invariant
            all == tok_views(toks@),
            i <= toks.len(),
            program_in(source@) == program_at(all, p@, i as int),
        decreases toks@.len() - i,
    {
        let ghost before = p@;
        if is_keyword(&toks, i, "from") {
            let name = expect_ident(&toks, i + 1)?;
            p.from = Some(name);
            i = i + 2;
            proof {
                assert(p@ =~= ProgramView { from: Some(name@), ..before });
            }
        } else if is_keyword(&toks, i, "enrich") {
            let step = parse_enrich(&toks, i + 1)?;
            p.enriches.push(step.0);
            i = step.1;
            proof {
                assert(p@.enriches =~= before.enriches.push(step.0@));
                assert(p@ =~= ProgramView { enriches: before.enriches.push(step.0@), ..before });
            }
        } else if is_keyword(&toks, i, "project") {
            if p.project.is_some() {
                return Err(rql_error("only one project clause is allowed"));
            }
            if !is_open(&toks, i + 1) {
                return Err(
                    rql_error(
                        cat2(
                            "expected '{' after project, got ",
                            show_at(&toks, i + 1).as_str(),
                        ).as_str(),
                    ),
                );
            }
            let fields = parse_fields(&toks, i + 2)?;
            p.project = Some(fields.0);
            i = fields.1;
            proof {
                assert(p@ =~= ProgramView { project: Some(field_models(fields.0@)), ..before });
            }
        } else {
            return Err(
                rql_error(
                    cat3(
                        "unexpected token ",
                        show_at(&toks, i).as_str(),
                        "; expected from/enrich/project",
                    ).as_str(),
                ),
            );
        }
    }
    proof {
        assert(p@.enriches.len() == p.enriches@.len());
    }
    if p.from.is_none() && p.enriches.len() == 0 {
        return Err(rql_error("program needs `from <collection>` or at least one enrich"));
    }
    Ok(p)
}

/// A text in plain quotes.
pub open spec fn in_quotes(s: Seq<char>) -> Seq<char> {
    "\""@ + s + "\""@
}

/// The expression that reads a path of a variable.
pub open spec fn path_text(var: Seq<char>, path: Seq<Seq<char>>) -> Seq<char> {
    ("getPath("@ + var + ", Seq["@) + joined(
        path.map_values(|s: Seq<char>| in_quotes(s)),
        ", "@,
    ) + "])"@
}

fn path_get(var: &str, path: &Vec<String>) -> (r: String)
    ensures
        r@ == path_text(var@, texts(path@)),
{
    let ghost all = texts(path@).map_values(|s: Seq<char>| in_quotes(s));
    let mut parts: Vec<String> = Vec::new();
    let mut i: usize = 0;
    proof {
        assert(texts(parts@) =~= all.take(0));
    }
    while i < path.len()
        invariant
            i <= path@.len(),
            all == texts(path@).map_values(|s: Seq<char>| in_quotes(s)),
            texts(parts@) == all.take(i as int),
        decreases path@.len() - i,
    {
        let ghost before = texts(parts@);
        parts.push(cat3("\"", path[i].as_str(), "\""));
        proof {
            assert(texts(parts@) =~= before.push(all[i as int]));
            assert(texts(parts@) =~= all.take(i + 1));
        }
        i = i + 1;
    }
    proof {
        assert(all.take(all.len() as int) =~= all);
    }
    let head = cat3("getPath(", var, ", Seq[");
    cat3(head.as_str(), join(&parts, ", ").as_str(), "])")
}

/// A place in the tree of a projection.
#[derive(Debug)]
pub enum Node {
    /// The value of a path of the row.
    Leaf(Vec<String>),
    /// A bag whose elements are projected.
    Nested(Vec<ProjectField>),
    /// A map of further places, by name.
    Group(Vec<(String, Node)>),
}

/// Model of a [`Node`].
#[verifier::ext_equal]
pub enum NodeView {
    Leaf(Seq<Seq<char>>),
    Nested(Seq<FieldView>),
    Group(Seq<(Seq<char>, NodeView)>),
}

/// Model of a map of places.
pub type NodeMap = Seq<(Seq<char>, NodeView)>;

impl Node {
    /// The place as its model.
    pub open spec fn model(&self) -> NodeView
        decreases self,
    {
        match self {
            Node::Leaf(p) => NodeView::Leaf(texts(p@)),
            Node::Nested(f) => NodeView::Nested(field_models(f@)),
            Node::Group(m) => NodeView::Group(
                Seq::new(
                    m@.len(),
                    |i: int|
                        if 0 <= i < m@.len() {
                            (m@[i].0@, m@[i].1.model())
                        } else {
                            (Seq::empty(), NodeView::Leaf(Seq::empty()))
                        },
                ),
            ),
        }
    }
}

/// The model of a map of places.
pub open spec fn node_models(m: Seq<(String, Node)>) -> NodeMap {
    Seq::new(m.len(), |i: int| (m[i].0@, m[i].1.model()))
}

proof fn lemma_group_model(m: Vec<(String, Node)>)
    ensures
        Node::Group(m).model() == NodeView::Group(node_models(m@)),
{
    let n = Node::Group(m);
    assert(n.model()->Group_0 =~= node_models(m@));
}

/// A map of places with one more, by ascending name; a place of that name is
/// replaced.
pub open spec fn with_node(m: NodeMap, key: Seq<char>, node: NodeView) -> NodeMap
    decreases m.len(),
{
    if m.len() == 0 {
        seq![(key, node)]
    } else {
        match text_order(key, m.last().0) {
            Order::Greater => m.push((key, node)),
            Order::Equal => m.drop_last().push((key, node)),
            Order::Less => with_node(m.drop_last(), key, node).push(m.last()),
        }
    }
}

/// Where the place of a name stands, searched from the end.
pub open spec fn node_at(m: NodeMap, key: Seq<char>) -> Option<int>
    decreases m.len(),
{
    if m.len() == 0 {
        None
    } else if m.last().0 == key {
        Some(m.len() - 1)
    } else {
        node_at(m.drop_last(), key)
    }
}

fn put_node(m: &mut Vec<(String, Node)>, key: String, node: Node)
    ensures
        node_models(final(m)@) == with_node(node_models(old(m)@), key@, node.model()),
{
    let ghost all = node_models(m@);
    let ghost item = (key@, node.model());
    let mut i: usize = m.len();
    proof {
        assert(all.take(all.len() as int) =~= all);
        assert(with_node(all, key@, node.model()) + all.skip(all.len() as int) =~= with_node(
            all,
            key@,
            node.model(),
        ));
    }
    while i > 0
        invariant
            m@ == old(m)@,
            i <= m@.len(),
            all == node_models(m@),
            item == (key@, node.model()),
            with_node(all, key@, node.model()) == with_node(
                all.take(i as int),
                key@,
                node.model(),
            ) + all.skip(i as int),
        decreases i,
    {
        let ghost head = all.take(i as int);
        proof {
            assert(head.drop_last() =~= all.take(i - 1));
            assert(head.last() == all[i - 1]);
        }
        match compare_text(key.as_str(), m[i - 1].0.as_str()) {
            Order::Greater => {
                m.insert(i, (key, node));
                proof {
                    assert(node_models(m@) =~= head.push(item) + all.skip(i as int));
                }
                return ;
            },
            Order::Equal => {
                m.set(i - 1, (key, node));
                proof {
                    assert(node_models(m@) =~= all.take(i - 1).push(item) + all.skip(i as int));
                }
                return ;
            },
            Order::Less => {
                proof {
                    let rest = with_node(all.take(i - 1), key@, node.model());
                    assert(rest.push(all[i - 1]) + all.skip(i as int) =~= rest + all.skip(i - 1));
                }
            },
        }
        i = i - 1;
    }
    m.insert(0, (key, node));
    proof {
        assert(all.take(0) =~= Seq::empty());
        assert(node_models(m@) =~= seq![item] + all.skip(0));
    }
}

/// A map of places with the value of a path, entered at the path's place `k`.
/// A path may not run through the value of another one.
pub open spec fn with_path(m: NodeMap, path: Seq<Seq<char>>, k: int) -> Result<NodeMap, ErrorView>
    decreases path.len() - k,
{
    if k < 0 || k >= path.len() {
        Ok(m)
    } else if k + 1 == path.len() {
        Ok(with_node(m, path[k], NodeView::Leaf(path)))
    } else {
        match node_at(m, path[k]) {
            None => match with_path(Seq::empty(), path, k + 1) {
                Err(e) => Err(e),
                Ok(after) => Ok(with_node(m, path[k], NodeView::Group(after))),
            },
            Some(i) => match m[i].1 {
                NodeView::Group(g) => match with_path(g, path, k + 1) {
                    Err(e) => Err(e),
                    Ok(after) => Ok(m.update(i, (path[k], NodeView::Group(after)))),
                },
                _ => Err(rql_refusal("project path conflict at "@ + path[k])),
            },
        }
    }
}

fn find_node(m: &Vec<(String, Node)>, key: &str) -> (r: Option<usize>)
    ensures
        match r {
            Some(i) => i < m@.len() && node_at(node_models(m@), key@) == Some(i as int),
            None => node_at(node_models(m@), key@) is None,
        },
{
    let ghost all = node_models(m@);
    let mut i: usize = m.len();
    proof {
        assert(all.take(all.len() as int) =~= all);
    }
    while i > 0
        invariant
            i <= m@.len(),
            all == node_models(m@),
            node_at(all, key@) == node_at(all.take(i as int), key@),
        decreases i,
    {
        proof {
            assert(all.take(i as int).drop_last() =~= all.take(i - 1));
            assert(all.take(i as int).last() == all[i - 1]);
        }
        if same_text(m[i - 1].0.as_str(), key) {
            return Some(i - 1);
        }
        i = i - 1;
    }
    None
}

fn copy_path(path: &Vec<String>) -> (r: Vec<String>)
    ensures
        texts(r@) == texts(path@),
{
    let ghost all = texts(path@);
    let mut out: Vec<String> = Vec::new();
    let mut i: usize = 0;
    proof {
        assert(texts(out@) =~= all.take(0));
    }
    while i < path.len()
        invariant
            i <= path@.len(),
            all == texts(path@),
            texts(out@) == all.take(i as int),
        decreases path@.len() - i,
    {
        let ghost before = texts(out@);
        out.push(path[i].clone());
        proof {
            assert(texts(out@) =~= before.push(all[i as int]));
            assert(texts(out@) =~= all.take(i + 1));
        }
        i = i + 1;
    }
    proof {
        assert(all.take(all.len() as int) =~= all);
    }
    out
}

fn add_path(m: Vec<(String, Node)>, path: &Vec<String>, k: usize) -> (r: Result<
    Vec<(String, Node)>,
    Error,
>)
    ensures
        ({
            let s = with_path(node_models(m@), texts(path@), k as int);
            match r {
                Ok(after) => s == Ok::<NodeMap, ErrorView>(node_models(after@)),
                Err(e) => s == Err::<NodeMap, ErrorView>(e@),
            }
        }),
    decreases path@.len() - k,
{
    let ghost all = node_models(m@);
    let ghost names = texts(path@);
    let mut m = m;
    if k >= path.len() {
        return Ok(m);
    }
    let seg = path[k].clone();
    proof {
        assert(names[k as int] == seg@);
    }
    if k + 1 == path.len() {
        put_node(&mut m, seg, Node::Leaf(copy_path(path)));
        return Ok(m);
    }
    match find_node(&m, seg.as_str()) {
        None => {
            let empty: Vec<(String, Node)> = Vec::new();
            proof {
                assert(node_models(empty@) =~= Seq::empty());
            }
            let after = add_path(empty, path, k + 1)?;
            proof {
                lemma_group_model(after);
            }
            put_node(&mut m, seg, Node::Group(after));
            Ok(m)
        },
        Some(i) => {
            let entry = m.remove(i);
            proof {
                assert(entry.1.model() == all[i as int].1);
            }
            match entry.1 {
                Node::Group(g) => {
                    proof {
                        lemma_group_model(g);
                    }
                    let after = add_path(g, path, k + 1)?;
                    proof {
                        lemma_group_model(after);
                    }
                    let ghost name = seg@;
                    m.insert(i, (seg, Node::Group(after)));
                    proof {
                        assert(node_models(m@) =~= all.update(
                            i as int,
                            (name, NodeView::Group(node_models(after@))),
                        ));
                    }
                    Ok(m)
                },
                _ => Err(
                    rql_error(cat2("project path conflict at ", seg.as_str()).as_str()),
                ),
            }
        },
    }
}

/// The tree of a projection.
pub open spec fn tree_of(fields: Seq<FieldView>) -> Result<NodeMap, ErrorView>
    decreases fields.len(),
{
    if fields.len() == 0 {
        Ok(Seq::empty())
    } else {
        match tree_of(fields.drop_last()) {
            Err(e) => Err(e),
            Ok(m) => match fields.last() {
                FieldView::Nested { name, fields } => Ok(with_node(m, name, NodeView::Nested(fields))),
                FieldView::Path(path) => with_path(m, path, 0),
            },
        }
    }
}

proof fn lemma_tree_refused(fields: Seq<FieldView>, n: int)
    requires
        0 <= n <= fields.len(),
        tree_of(fields.take(n)) is Err,
    ensures
        tree_of(fields) == tree_of(fields.take(n)),
    decreases fields.len(),
{
    if n < fields.len() {
        assert(fields.drop_last().take(n) =~= fields.take(n));
        lemma_tree_refused(fields.drop_last(), n);
    } else {
        assert(fields.take(n) =~= fields);
    }
}

fn copy_fields(fields: &Vec<ProjectField>) -> (r: Vec<ProjectField>)
    ensures
        field_models(r@) == field_models(fields@),
    decreases fields,
{
    let ghost all = field_models(fields@);
    let mut out: Vec<ProjectField> = Vec::new();
    let mut i: usize = 0;
    proof {
        assert(field_models(out@) =~= all.take(0));
    }
    while i < fields.len()
        invariant
            i <= fields@.len(),
            all == field_models(fields@),
            field_models(out@) == all.take(i as int),
        decreases fields@.len() - i,
    {
        let ghost before = field_models(out@);
        proof {
            assert(decreases_to!(*fields => fields@));
            assert(decreases_to!(fields@ => fields@[i as int]));
        }
        let f = copy_field(&fields[i]);
        out.push(f);
        proof {
            assert(field_models(out@) =~= before.push(all[i as int]));
            assert(field_models(out@) =~= all.take(i + 1));
        }
        i = i + 1;
    }
    proof {
        assert(all.take(all.len() as int) =~= all);
    }
    out
}

fn copy_field(f: &ProjectField) -> (r: ProjectField)
    ensures
        r@ == f@,
    decreases f,
{
    match f {
        ProjectField::Path(p) => ProjectField::Path(copy_path(p)),
        ProjectField::Nested { name, fields } => {
            proof {
                assert(decreases_to!(*f => f->fields));
                lemma_nested_model(*name, *fields);
            }
            let name2 = name.clone();
            let fields2 = copy_fields(fields);
            proof {
                lemma_nested_model(name2, fields2);
            }
            ProjectField::Nested { name: name2, fields: fields2 }
        },
    }
}

fn build_tree(fields: &Vec<ProjectField>) -> (r: Result<Vec<(String, Node)>, Error>)
    ensures
        match r {
            Ok(m) => tree_of(field_models(fields@)) == Ok::<NodeMap, ErrorView>(node_models(m@)),
            Err(e) => tree_of(field_models(fields@)) == Err::<NodeMap, ErrorView>(e@),
        },
{
    let ghost all = field_models(fields@);
    let mut m: Vec<(String, Node)> = Vec::new();
    let mut i: usize = 0;
    proof {
        assert(all.take(0) =~= Seq::empty());
        assert(node_models(m@) =~= Seq::empty());
    }
    while i < fields.len()
        invariant
            i <= fields@.len(),
            all == field_models(fields@),
            tree_of(all.take(i as int)) == Ok::<NodeMap, ErrorView>(node_models(m@)),
        decreases fields@.len() - i,
    {
        proof {
            assert(all.take(i + 1).drop_last() =~= all.take(i as int));
            assert(all.take(i + 1).last() == fields@[i as int]@);
        }
        match &fields[i] {
            ProjectField::Nested { name, fields: inner } => {
                proof {
                    lemma_nested_model(*name, *inner);
                }
                put_node(&mut m, name.clone(), Node::Nested(copy_fields(inner)));
            },
            ProjectField::Path(path) => {
                match add_path(m, path, 0) {
                    Ok(next) => {
                        m = next;
                    },
                    Err(e) => {
                        proof {
                            lemma_tree_refused(all, i + 1);
                        }
                        return Err(e);
                    },
                }
            },
        }
        i = i + 1;
    }
    proof {
        assert(all.take(all.len() as int) =~= all);
    }
    Ok(m)
}

/// Most levels of nested projections.
pub const MAX_PROJECT_DEPTH: usize = 8;

/// One level deeper.
pub open spec fn deeper(depth: usize) -> usize {
    if depth == usize::MAX {
        depth
    } else {
        (depth + 1) as usize
    }
}

/// How far a projection at a level may still nest.
pub open spec fn fields_rank(depth: usize) -> int {
    if depth > MAX_PROJECT_DEPTH {
        0
    } else {
        2 * (MAX_PROJECT_DEPTH + 1 - depth) + 1
    }
}

/// How far a map at a level may still nest.
pub open spec fn map_rank(depth: usize) -> int {
    if depth > MAX_PROJECT_DEPTH {
        1
    } else {
        2 * (MAX_PROJECT_DEPTH + 1 - depth)
    }
}

/// The expression that a projection becomes over a row variable.
pub open spec fn fields_text(fields: Seq<FieldView>, row: Seq<char>, depth: usize) -> Result<
    Seq<char>,
    ErrorView,
>
    decreases fields_rank(depth), fields,
{
    if depth > MAX_PROJECT_DEPTH {
        Err(rql_refusal("project nesting too deep"@))
    } else {
        match tree_of(fields) {
            Err(e) => Err(e),
            Ok(m) => map_text(m, row, Seq::empty(), depth),
        }
    }
}

/// The expression that a map of places becomes.
pub open spec fn map_text(
    m: NodeMap,
    row: Seq<char>,
    prefix: Seq<Seq<char>>,
    depth: usize,
) -> Result<Seq<char>, ErrorView>
    decreases map_rank(depth), m, 1int,
{
    match entry_texts(m, row, prefix, depth) {
        Err(e) => Err(e),
        Ok(entries) => Ok("Map{"@ + joined(entries, ", "@) + "}"@),
    }
}

/// The entries of a map of places, in order.
pub open spec fn entry_texts(
    m: NodeMap,
    row: Seq<char>,
    prefix: Seq<Seq<char>>,
    depth: usize,
) -> Result<Seq<Seq<char>>, ErrorView>
    decreases map_rank(depth), m, 0int,
{
    if m.len() == 0 {
        Ok(Seq::empty())
    } else {
        proof {
            assert(decreases_to!(m => m.subrange(0, m.len() - 1)));
            assert(m.drop_last() == m.subrange(0, m.len() - 1));
            assert(decreases_to!(m => m[m.len() - 1]));
            assert(decreases_to!(m[m.len() - 1] => m[m.len() - 1].1));
        }
        match entry_texts(m.drop_last(), row, prefix, depth) {
            Err(e) => Err(e),
            Ok(before) => {
                let key = m.last().0;
                let path = prefix.push(key);
                let value = match m.last().1 {
                    NodeView::Leaf(full) => Ok(path_text(row, full)),
                    NodeView::Group(g) => map_text(g, row, path, deeper(depth)),
                    NodeView::Nested(fields) => {
                        let bind = "i"@ + decimal(depth as nat);
                        match fields_text(fields, bind, deeper(depth)) {
                            Err(e) => Err(e),
                            Ok(inner) => Ok(
                                ("bindOpt("@ + path_text(row, path) + ", bag => Some({ yield "@
                                    + inner + " | "@) + (bind + " in bag }))"@),
                            ),
                        }
                    },
                };
                match value {
                    Err(e) => Err(e),
                    Ok(v) => Ok(before.push(in_quotes(key) + " -> "@ + v)),
                }
            },
        }
    }
}

proof fn lemma_entries_refused(
    m: NodeMap,
    row: Seq<char>,
    prefix: Seq<Seq<char>>,
    depth: usize,
    n: int,
)
    requires
        0 <= n <= m.len(),
        entry_texts(m.take(n), row, prefix, depth) is Err,
    ensures
        entry_texts(m, row, prefix, depth) == entry_texts(m.take(n), row, prefix, depth),
    decreases m.len(),
{
    if n < m.len() {
        assert(m.drop_last().take(n) =~= m.take(n));
        lemma_entries_refused(m.drop_last(), row, prefix, depth, n);
    } else {
        assert(m.take(n) =~= m);
    }
}

fn one_deeper(depth: usize) -> (r: usize)
    ensures
        r == deeper(depth),
{
    if depth == usize::MAX {
        depth
    } else {
        depth + 1
    }
}

fn lower_project_fields(fields: &Vec<ProjectField>, row: &str, depth: usize) -> (r: Result<
    String,
    Error,
>)
    ensures
        match r {
            Ok(t) => fields_text(field_models(fields@), row@, depth) == Ok::<
                Seq<char>,
                ErrorView,
            >(t@),
            Err(e) => fields_text(field_models(fields@), row@, depth) == Err::<
                Seq<char>,
                ErrorView,
            >(e@),
        },
    decreases fields_rank(depth), fields, 0int,
{
    if depth > MAX_PROJECT_DEPTH {
        return Err(rql_error("project nesting too deep"));
    }
    let tree = build_tree(fields)?;
    let prefix: Vec<String> = Vec::new();
    proof {
        assert(texts(prefix@) =~= Seq::empty());
    }
    emit_map(&tree, row, &prefix, depth)
}

fn emit_map(map: &Vec<(String, Node)>, row: &str, prefix: &Vec<String>, depth: usize) -> (r: Result<
    String,
    Error,
>)
    ensures
        ({
            let s = map_text(node_models(map@), row@, texts(prefix@), depth);
            match r {
                Ok(t) => s == Ok::<Seq<char>, ErrorView>(t@),
                Err(e) => s == Err::<Seq<char>, ErrorView>(e@),
            }
        }),
    decreases map_rank(depth), map, 1int,
{
    let ghost all = node_models(map@);
    let mut entries: Vec<String> = Vec::new();
    let mut i: usize = 0;
    proof {
        assert(all.take(0) =~= Seq::empty());
        assert(texts(entries@) =~= Seq::empty());
    }
    while i < map.len()
        invariant
            i <= map@.len(),
            all == node_models(map@),
            entry_texts(all.take(i as int), row@, texts(prefix@), depth) == Ok::<
                Seq<Seq<char>>,
                ErrorView,
            >(texts(entries@)),
        decreases map@.len() - i,
    {
        let ghost before = texts(entries@);
        let ghost here = all.take(i + 1);
        proof {
            assert(here.drop_last() =~= all.take(i as int));
            assert(here.last() == (map@[i as int].0@, map@[i as int].1.model()));
            assert(decreases_to!(*map => map@));
            assert(decreases_to!(map@ => map@[i as int]));
            assert(decreases_to!(map@[i as int] => map@[i as int].1));
        }
        let key = &map[i].0;
        let mut path = copy_path(prefix);
        path.push(key.clone());
        proof {
            assert(texts(path@) =~= texts(prefix@).push(key@));
        }
        let value = emit_node(&map[i].1, row, &path, depth);
        match value {
            Ok(v) => {
                let quoted = cat3("\"", key.as_str(), "\"");
                entries.push(cat3(quoted.as_str(), " -> ", v.as_str()));
                proof {
                    assert(texts(entries@) =~= before.push(in_quotes(key@) + " -> "@ + v@));
                }
            },
            Err(e) => {
                proof {
                    lemma_entries_refused(all, row@, texts(prefix@), depth, i + 1);
                }
                return Err(e);
            },
        }
        i = i + 1;
    }
    proof {
        assert(all.take(all.len() as int) =~= all);
    }
    Ok(cat3("Map{", join(&entries, ", ").as_str(), "}"))
}

/// The expression that a place becomes.
pub open spec fn node_text(
    node: NodeView,
    row: Seq<char>,
    path: Seq<Seq<char>>,
    depth: usize,
) -> Result<Seq<char>, ErrorView> {
    match node {
        NodeView::Leaf(full) => Ok(path_text(row, full)),
        NodeView::Group(g) => map_text(g, row, path, deeper(depth)),
        NodeView::Nested(fields) => {
            let bind = "i"@ + decimal(depth as nat);
            match fields_text(fields, bind, deeper(depth)) {
                Err(e) => Err(e),
                Ok(inner) => Ok(
                    ("bindOpt("@ + path_text(row, path) + ", bag => Some({ yield "@ + inner
                        + " | "@) + (bind + " in bag }))"@),
                ),
            }
        },
    }
}

fn emit_node(node: &Node, row: &str, path: &Vec<String>, depth: usize) -> (r: Result<String, Error>)
    ensures
        ({
            let s = node_text(node.model(), row@, texts(path@), depth);
            match r {
                Ok(t) => s == Ok::<Seq<char>, ErrorView>(t@),
                Err(e) => s == Err::<Seq<char>, ErrorView>(e@),
            }
        }),
    decreases map_rank(depth), node, 0int,
{
    match node {
        Node::Leaf(full) => Ok(path_get(row, full)),
        Node::Group(g) => {
            proof {
                assert(decreases_to!(*node => node->Group_0));
                lemma_group_model(*g);
            }
            emit_map(g, row, path, one_deeper(depth))
        },
        Node::Nested(fields) => {
            let bind = cat2("i", decimal_text(depth as u64).as_str());
            let inner = lower_project_fields(fields, bind.as_str(), one_deeper(depth))?;
            let bag = path_get(row, path);
            let left = cat5(
                "bindOpt(",
                bag.as_str(),
                ", bag => Some({ yield ",
                inner.as_str(),
                " | ",
            );
            let right = cat2(bind.as_str(), " in bag }))");
            Ok(cat2(left.as_str(), right.as_str()))
        },
    }
}

/// The value that an enrichment adds.
pub open spec fn enrich_value(step: EnrichView) -> Seq<char> {
    let bag = ("Match(l, "@ + step.source + ", "@) + (path_text("l"@, step.left_key) + ", "@
        + path_text("r"@, step.right_key) + ")"@);
    match step.cardinality {
        Cardinality::ExactlyOne => "one!("@ + bag + ")"@,
        Cardinality::Optional => "one?("@ + bag + ")"@,
        Cardinality::Many => bag,
    }
}

/// A pipeline with one more enrichment.
pub open spec fn with_enrich(pipeline: Seq<char>, step: EnrichView) -> Seq<char> {
    (pipeline + "\n|> enrich {\n    "@ + step.output + ": "@) + (enrich_value(step) + "\n  }"@)
}

/// A pipeline with enrichments.
pub open spec fn with_enriches(root: Seq<char>, steps: Seq<EnrichView>) -> Seq<char>
    decreases steps.len(),
{
    if steps.len() == 0 {
        root
    } else {
        with_enrich(with_enriches(root, steps.drop_last()), steps.last())
    }
}

/// The SDA text that a program becomes.
pub open spec fn program_text(p: ProgramView) -> Result<Seq<char>, ErrorView> {
    match p.from {
        None => Err(rql_refusal("`from <collection>` is required for v0.1 lowering"@)),
        Some(root) => {
            let pipeline = with_enriches(root, p.enriches);
            match p.project {
                None => Ok(pipeline),
                Some(fields) => match fields_text(fields, "o"@, 0) {
                    Err(e) => Err(e),
                    Ok(body) => Ok(
                        pipeline + "\n|> refine {\n    yield "@ + body + "\n    | o in _\n  }"@,
                    ),
                },
            }
        },
    }
}

fn emit_enrich(step: &EnrichStep) -> (r: String)
    ensures
        r@ == enrich_value(step@),
{
    let left = cat3("Match(l, ", step.source.as_str(), ", ");
    let right = cat4(
        path_get("l", &step.left_key).as_str(),
        ", ",
        path_get("r", &step.right_key).as_str(),
        ")",
    );
    let bag = cat2(left.as_str(), right.as_str());
    match step.cardinality {
        Cardinality::ExactlyOne => cat3("one!(", bag.as_str(), ")"),
        Cardinality::Optional => cat3("one?(", bag.as_str(), ")"),
        Cardinality::Many => bag,
    }
}

/// Lowers a program to SDA text.
pub fn lower_to_sda(program: &RqlProgram) -> (r: Result<String, Error>)
    ensures
        match r {
            Ok(t) => program_text(program@) == Ok::<Seq<char>, ErrorView>(t@),
            Err(e) => program_text(program@) == Err::<Seq<char>, ErrorView>(e@),
        },
{
    let root = match &program.from {
        Some(s) => s.clone(),
        None => {
            return Err(rql_error("`from <collection>` is required for v0.1 lowering"));
        },
    };
    let ghost start = root@;
    let ghost all = enrich_views(program.enriches@);
    let mut pipeline = root;
    let mut i: usize = 0;
    proof {
        assert(all.take(0) =~= Seq::empty());
    }
    while i < program.enriches.len()
        invariant
            i <= program.enriches@.len(),
            all == enrich_views(program.enriches@),
            pipeline@ == with_enriches(start, all.take(i as int)),
        decreases program.enriches@.len() - i,
    {
        proof {
            assert(all.take(i + 1).drop_last() =~= all.take(i as int));
            assert(all.take(i + 1).last() == program.enriches@[i as int]@);
        }
        let step = &program.enriches[i];
        let left = cat4(pipeline.as_str(), "\n|> enrich {\n    ", step.output.as_str(), ": ");
        let right = cat2(emit_enrich(step).as_str(), "\n  }");
        pipeline = cat2(left.as_str(), right.as_str());
        i = i + 1;
    }
    proof {
        assert(all.take(all.len() as int) =~= all);
    }
    match &program.project {
        Some(fields) => {
            let body = lower_project_fields(fields, "o", 0)?;
            Ok(
                cat4(
                    pipeline.as_str(),
                    "\n|> refine {\n    yield ",
                    body.as_str(),
                    "\n    | o in _\n  }",
                ),
            )
        },
        None => Ok(pipeline),
    }
}

/// The SDA text that RQL source becomes.
pub open spec fn rql_text(source: Seq<char>) -> Result<Seq<char>, ErrorView> {
    if trimmed(source).len() == 0 {
        Err(ErrorView::QueryInvalid("dialect 'rql': empty program"@))
    } else {
        match program_in(trimmed(source)) {
            Err(e) => Err(e),
            Ok(p) => program_text(p),
        }
    }
}

/// The SDA text that RQL source becomes, for the SDA parser.
pub fn rql_to_sda(source: &str) -> (r: Result<String, Error>)
    ensures
        match r {
            Ok(t) => rql_text(source@) == Ok::<Seq<char>, ErrorView>(t@),
            Err(e) => rql_text(source@) == Err::<Seq<char>, ErrorView>(e@),
        },
{
    let text = trim(source);
    if text.as_str().is_empty() {
        return Err(Error::QueryInvalid("dialect 'rql': empty program".to_string()));
    }
    let program = parse_rql(text.as_str())?;
    lower_to_sda(&program)
}

/// What RQL source compiles to, given what the SDA parser says of its text.
pub open spec fn rql_compiled(source: Seq<char>, parse: SdaParse) -> Result<
    CompiledSdaView,
    ErrorView,
> {
    match rql_text(source) {
        Err(e) => Err(e),
        Ok(sda) => match parse {
            SdaParse::Refused(m) => Err(
                rql_refusal("internal SDA compile failed: "@ + m@ + "; sda="@ + sda),
            ),
            SdaParse::Accepted => Ok(
                CompiledSdaView {
                    dialect: "rql"@,
                    sda,
                    shape: SdaShape::Program,
                    notes: Seq::empty(),
                },
            ),
        },
    }
}

/// Compiles RQL source. `parse` is what the SDA parser says of the text that
/// [`rql_to_sda`] gives.
pub fn compile_rql(source: &str, parse: &SdaParse) -> (r: Result<CompiledSda, Error>)
    ensures
        outcome(r) == rql_compiled(source@, *parse),
{
    let sda = rql_to_sda(source)?;
    match parse {
        SdaParse::Refused(m) => Err(
            rql_error(
                cat4("internal SDA compile failed: ", m.as_str(), "; sda=", sda.as_str()).as_str(),
            ),
        ),
        SdaParse::Accepted => {
            let notes: Vec<String> = Vec::new();
            proof {
                assert(texts(notes@) =~= Seq::empty());
            }
            Ok(CompiledSda::program("rql", sda.as_str(), notes))
        },
    }
}

/// Names strictly ascend.
pub open spec fn names_ascend(m: NodeMap) -> bool {
    forall|i: int, j: int|
        0 <= i < j < m.len() ==> text_order((#[trigger] m[i]).0, (#[trigger] m[j]).0) == Order::Less
}

/// A map of places stays in order, with every name once, when a place is put
/// into it; the other places stay.
pub proof fn law_map_stays_in_order(m: NodeMap, key: Seq<char>, node: NodeView)
    requires
        names_ascend(m),
    ensures
        names_ascend(with_node(m, key, node)),
        forall|i: int|
            0 <= i < with_node(m, key, node).len() ==> (#[trigger] with_node(m, key, node)[i]).0
                == key || m.contains(with_node(m, key, node)[i]),
        with_node(m, key, node).contains((key, node)),
    decreases m.len(),
{
    let after = with_node(m, key, node);
    if m.len() == 0 {
        assert(after[0] == (key, node));
    } else {
        let head = m.drop_last();
        let last = m.last();
        assert forall|i: int, j: int| 0 <= i < j < head.len() implies text_order(
            (#[trigger] head[i]).0,
            (#[trigger] head[j]).0,
        ) == Order::Less by {
            assert(head[i] == m[i] && head[j] == m[j]);
        }
        crate::text::lemma_text_order_flip(key, last.0);
        crate::text::lemma_text_order_equal(key, last.0);
        match text_order(key, last.0) {
            Order::Greater => {
                assert(after[m.len() as int] == (key, node));
                assert forall|i: int, j: int| 0 <= i < j < after.len() implies text_order(
                    (#[trigger] after[i]).0,
                    (#[trigger] after[j]).0,
                ) == Order::Less by {
                    assert(after[i] == m[i]);
                    if j < m.len() {
                        assert(after[j] == m[j]);
                    } else if i < m.len() - 1 {
                        assert(m[m.len() - 1] == last);
                        assert(text_order(m[i].0, m[m.len() - 1].0) == Order::Less);
                        crate::text::lemma_text_order_transitive(m[i].0, last.0, key);
                    }
                }
                assert forall|i: int| 0 <= i < after.len() implies (#[trigger] after[i]).0 == key
                    || m.contains(after[i]) by {
                    if i < m.len() {
                        assert(after[i] == m[i]);
                    }
                }
            },
            Order::Equal => {
                assert(after[m.len() - 1] == (key, node));
                assert forall|i: int, j: int| 0 <= i < j < after.len() implies text_order(
                    (#[trigger] after[i]).0,
                    (#[trigger] after[j]).0,
                ) == Order::Less by {
                    assert(after[i] == m[i]);
                    if j < m.len() - 1 {
                        assert(after[j] == m[j]);
                    } else {
                        assert(text_order(m[i].0, m[m.len() - 1].0) == Order::Less);
                    }
                }
                assert forall|i: int| 0 <= i < after.len() implies (#[trigger] after[i]).0 == key
                    || m.contains(after[i]) by {
                    if i < m.len() - 1 {
                        assert(after[i] == m[i]);
                    }
                }
            },
            Order::Less => {
                law_map_stays_in_order(head, key, node);
                let inner = with_node(head, key, node);
                assert(after =~= inner.push(last));
                assert forall|i: int| 0 <= i < inner.len() implies text_order(
                    (#[trigger] inner[i]).0,
                    last.0,
                ) == Order::Less by {
                    if inner[i].0 != key {
                        assert(head.contains(inner[i]));
                        let k = choose|k: int| 0 <= k < head.len() && head[k] == inner[i];
                        assert(m[k] == head[k]);
                        assert(text_order(m[k].0, m[m.len() - 1].0) == Order::Less);
                    }
                }
                assert forall|i: int, j: int| 0 <= i < j < after.len() implies text_order(
                    (#[trigger] after[i]).0,
                    (#[trigger] after[j]).0,
                ) == Order::Less by {
                    assert(after[i] == inner[i]);
                    if j < inner.len() {
                        assert(after[j] == inner[j]);
                    }
                }
                assert forall|i: int| 0 <= i < after.len() implies (#[trigger] after[i]).0 == key
                    || m.contains(after[i]) by {
                    if i < inner.len() {
                        assert(after[i] == inner[i]);
                        if inner[i].0 != key {
                            assert(head.contains(inner[i]));
                            let k = choose|k: int| 0 <= k < head.len() && head[k] == inner[i];
                            assert(m[k] == head[k]);
                        }
                    } else {
                        assert(m[m.len() - 1] == last);
                    }
                }
                let k = choose|k: int| 0 <= k < inner.len() && inner[k] == (key, node);
                assert(after[k] == (key, node));
            },
        }
    }
}

} // verus!
