//! What RQL programs mean: which source, which steps and which fields a text
//! names.
use crate::dialects::rql::{
    block_at, cardinality_of, enrich_at, enrich_value, field_at, fields_at, keyword_at, lexed, lexeme,
    path_at, path_tail, path_text, program_at, program_in, token_at, word_end, Cardinality, EnrichView,
    FieldView, Lexeme, ProgramView, TokView,
};
use crate::error::ErrorView;
use crate::meaning::sql::{blank, is_figure, is_letter, typed};
use crate::text::{lowered, white_space};
use vstd::prelude::*;

verus! {

/// A word as RQL writes it.
pub open spec fn is_word(s: Seq<char>) -> bool {
    &&& s.len() > 0
    &&& is_letter(s[0])
    &&& forall|k: int|
        0 <= k < s.len() ==> is_letter(#[trigger] s[k]) || is_figure(s[k])
}

/// How a token is spelled.
pub open spec fn spells(w: Seq<char>, t: TokView) -> bool {
    match t {
        TokView::Ident(s) => w == s && is_word(s),
        TokView::LBrace => w == seq!['{'],
        TokView::RBrace => w == seq!['}'],
        TokView::Eq => w == seq!['='],
        TokView::Comma => w == seq![','],
        TokView::Dot => w == seq!['.'],
    }
}

/// Words with gaps of white space spell tokens. A gap may be empty but between
/// two words.
pub open spec fn spelled(
    words: Seq<Seq<char>>,
    gaps: Seq<Seq<char>>,
    toks: Seq<TokView>,
) -> bool {
    &&& words.len() == toks.len()
    &&& gaps.len() == toks.len()
    &&& forall|i: int| 0 <= i < toks.len() ==> spells(words[i], #[trigger] toks[i])
    &&& forall|i: int| 0 <= i < toks.len() ==> blank(#[trigger] gaps[i])
    &&& forall|i: int|
        0 <= i < toks.len() - 1 && gaps[i].len() == 0 ==> !((#[trigger] toks[i]) is Ident
            && toks[i + 1] is Ident)
}

proof fn lemma_word_stops(s: Seq<char>, i: int, end: int)
    requires
        0 <= i <= end <= s.len(),
        forall|k: int| i <= k < end ==> is_letter(#[trigger] s[k]) || is_figure(s[k]),
        end < s.len() ==> !is_letter(s[end]) && !is_figure(s[end]),
    ensures
        word_end(s, i) == end,
    decreases end - i,
{
    if i < end {
        lemma_word_stops(s, i + 1, end);
    }
}

proof fn lemma_word(ahead: Seq<char>, w: Seq<char>, t: TokView, behind: Seq<char>)
    requires
        spells(w, t),
        behind.len() > 0 && t is Ident ==> !is_letter(behind[0]) && !is_figure(behind[0]),
    ensures
        lexeme(ahead + w + behind, ahead.len() as int) == Lexeme::Token(
            t,
            (ahead.len() + w.len()) as int,
        ),
        w.len() > 0,
{
    let s = ahead + w + behind;
    let at = ahead.len() as int;
    let end = at + w.len();
    assert(s[at] == w[0]);
    if behind.len() > 0 {
        assert(s[end] == behind[0]);
    }
    if let TokView::Ident(name) = t {
        assert forall|k: int| at + 1 <= k < end implies is_letter(#[trigger] s[k]) || is_figure(
            s[k],
        ) by {
            assert(s[k] == w[k - at]);
        }
        lemma_word_stops(s, at + 1, end);
        assert(s.subrange(at, end) =~= w);
    }
}

proof fn lemma_skip_blank(s: Seq<char>, i: int, n: int)
    requires
        0 <= i <= n <= s.len(),
        forall|k: int| i <= k < n ==> white_space(#[trigger] s[k]),
    ensures
        lexed(s, i) == lexed(s, n),
    decreases n - i,
{
    if i < n {
        lemma_skip_blank(s, i + 1, n);
    }
}

proof fn lemma_typed(
    ahead: Seq<char>,
    words: Seq<Seq<char>>,
    gaps: Seq<Seq<char>>,
    toks: Seq<TokView>,
)
    requires
        spelled(words, gaps, toks),
    ensures
        lexed(ahead + typed(words, gaps), ahead.len() as int) == Ok::<Seq<TokView>, ErrorView>(
            toks,
        ),
    decreases words.len(),
{
    let s = ahead + typed(words, gaps);
    let at = ahead.len() as int;
    if words.len() == 0 {
        assert(toks =~= Seq::empty());
    } else {
        let (w, g, t) = (words[0], gaps[0], toks[0]);
        let (ws, gs, ts) = (words.drop_first(), gaps.drop_first(), toks.drop_first());
        let rest = typed(ws, gs);
        let behind = g + rest;
        assert(spells(words[0], toks[0]));
        assert(blank(gaps[0]));
        assert forall|i: int| 0 <= i < ts.len() implies spells(ws[i], #[trigger] ts[i]) by {
            assert(toks[i + 1] == ts[i]);
            assert(words[i + 1] == ws[i]);
        }
        assert forall|i: int| 0 <= i < ts.len() implies blank(#[trigger] gs[i]) by {
            assert(gaps[i + 1] == gs[i]);
        }
        assert forall|i: int| 0 <= i < ts.len() - 1 && gs[i].len() == 0 implies !((
        #[trigger] ts[i]) is Ident && ts[i + 1] is Ident) by {
            assert(toks[i + 1] == ts[i]);
            assert(gaps[i + 1] == gs[i]);
            assert(toks[i + 2] == ts[i + 1]);
        }
        if behind.len() > 0 {
            if g.len() > 0 {
                assert(behind[0] == g[0]);
                assert(white_space(g[0]));
            } else {
                assert(ws.len() > 0);
                assert(spells(ws[0], ts[0]));
                lemma_word(Seq::empty(), ws[0], ts[0], Seq::empty());
                assert(behind[0] == ws[0][0]);
                assert(toks[1] == ts[0]);
                assert(!(toks[0] is Ident && toks[1] is Ident));
            }
        }
        lemma_word(ahead, w, t, behind);
        assert(s =~= ahead + w + behind);
        let end = at + w.len();
        let next = ahead + w + g;
        lemma_typed(next, ws, gs, ts);
        assert(s =~= next + rest);
        assert forall|k: int| end <= k < end + g.len() implies white_space(#[trigger] s[k]) by {
            assert(s[k] == g[k - end]);
            assert(white_space(g[k - end]));
        }
        lemma_skip_blank(s, end, end + g.len());
        assert(seq![t] + ts =~= toks);
    }
}

/// How a cardinality is written.
pub open spec fn cardinality_word(c: Cardinality) -> Seq<char> {
    match c {
        Cardinality::ExactlyOne => "exactly_one"@,
        Cardinality::Optional => "optional"@,
        Cardinality::Many => "many"@,
    }
}

proof fn lemma_cardinality(c: Cardinality)
    ensures
        cardinality_of(cardinality_word(c)) == Ok::<Cardinality, ErrorView>(c),
{
    reveal_strlit("exactly_one");
    reveal_strlit("exactlyone");
    reveal_strlit("one");
    reveal_strlit("optional");
    reveal_strlit("opt");
    reveal_strlit("many");
    assert(lowered("exactly_one"@) =~= "exactly_one"@);
    assert(lowered("optional"@) =~= "optional"@);
    assert(lowered("many"@) =~= "many"@);
    assert("exactly_one"@.len() == 11 && "exactlyone"@.len() == 10 && "one"@.len() == 3);
    assert("optional"@.len() == 8 && "opt"@.len() == 3 && "many"@.len() == 4);
}

/// Names with dots between them.
pub open spec fn path_tokens(path: Seq<Seq<char>>) -> Seq<TokView> {
    Seq::new(
        (2 * path.len() - 1) as nat,
        |k: int|
            if k % 2 == 0 {
                TokView::Ident(path[k / 2])
            } else {
                TokView::Dot
            },
    )
}

/// The tokens of an enrich step.
pub open spec fn enrich_tokens(e: EnrichView) -> Seq<TokView> {
    seq![
        TokView::Ident("enrich"@),
        TokView::Ident(e.output),
        TokView::Ident("using"@),
        TokView::Ident(e.source),
        TokView::Ident("matching"@),
    ] + path_tokens(e.left_key) + seq![TokView::Eq] + path_tokens(e.right_key) + seq![
        TokView::Ident("expect"@),
        TokView::Ident(cardinality_word(e.cardinality)),
    ]
}

/// The tokens of enrich steps, one behind the other.
pub open spec fn enriches_tokens(steps: Seq<EnrichView>) -> Seq<TokView>
    decreases steps.len(),
{
    if steps.len() == 0 {
        Seq::empty()
    } else {
        enrich_tokens(steps[0]) + enriches_tokens(steps.drop_first())
    }
}

/// The tokens of fields, each with a comma behind it.
pub open spec fn fields_tokens(paths: Seq<Seq<Seq<char>>>) -> Seq<TokView>
    decreases paths.len(),
{
    if paths.len() == 0 {
        Seq::empty()
    } else {
        path_tokens(paths[0]) + seq![TokView::Comma] + fields_tokens(paths.drop_first())
    }
}

/// The tokens of a projection.
pub open spec fn project_tokens(project: Option<Seq<Seq<Seq<char>>>>) -> Seq<TokView> {
    match project {
        None => Seq::empty(),
        Some(paths) => seq![TokView::Ident("project"@), TokView::LBrace] + fields_tokens(paths)
            + seq![TokView::RBrace],
    }
}

/// The tokens of a program.
pub open spec fn program_tokens(
    source: Seq<char>,
    steps: Seq<EnrichView>,
    project: Option<Seq<Seq<Seq<char>>>>,
) -> Seq<TokView> {
    seq![TokView::Ident("from"@), TokView::Ident(source)] + enriches_tokens(steps)
        + project_tokens(project)
}

/// Tokens stand in a list at a place.
spec fn stands(toks: Seq<TokView>, i: int, part: Seq<TokView>) -> bool {
    &&& 0 <= i
    &&& i + part.len() <= toks.len()
    &&& forall|k: int| 0 <= k < part.len() ==> toks[i + k] == #[trigger] part[k]
}

proof fn lemma_stands_split(toks: Seq<TokView>, i: int, a: Seq<TokView>, b: Seq<TokView>)
    requires
        stands(toks, i, a + b),
    ensures
        stands(toks, i, a),
        stands(toks, i + a.len(), b),
{
    assert forall|k: int| 0 <= k < a.len() implies toks[i + k] == #[trigger] a[k] by {
        assert((a + b)[k] == a[k]);
    }
    assert forall|k: int| 0 <= k < b.len() implies toks[i + a.len() + k] == #[trigger] b[k] by {
        assert((a + b)[a.len() + k] == b[k]);
        assert(toks[i + (a.len() + k)] == (a + b)[a.len() + k]);
    }
}

proof fn lemma_path_tail(toks: Seq<TokView>, i: int, path: Seq<Seq<char>>, m: int)
    requires
        path.len() > 0,
        stands(toks, i, path_tokens(path)),
        !token_at(toks, i + 2 * path.len() - 1, TokView::Dot),
        1 <= m <= path.len(),
    ensures
        path_tail(toks, path.take(m), i + 2 * m - 1) == Ok::<(Seq<Seq<char>>, int), ErrorView>(
            (path, i + 2 * path.len() - 1),
        ),
    decreases path.len() - m,
{
    let all = path_tokens(path);
    if m < path.len() {
        assert(toks[i + (2 * m - 1)] == all[2 * m - 1]);
        assert(toks[i + 2 * m] == all[2 * m]);
        assert((2 * m) / 2 == m);
        assert((2 * m - 1) % 2 == 1);
        assert(path.take(m).push(path[m]) =~= path.take(m + 1));
        lemma_path_tail(toks, i, path, m + 1);
    } else {
        assert(path.take(m) =~= path);
    }
}

proof fn lemma_path(toks: Seq<TokView>, i: int, path: Seq<Seq<char>>)
    requires
        path.len() > 0,
        stands(toks, i, path_tokens(path)),
        !token_at(toks, i + 2 * path.len() - 1, TokView::Dot),
    ensures
        path_at(toks, i) == Ok::<(Seq<Seq<char>>, int), ErrorView>(
            (path, i + 2 * path.len() - 1),
        ),
        toks[i] == TokView::Ident(path[0]),
        path_tail(toks, seq![path[0]], i + 1) == path_at(toks, i),
{
    lemma_path_tail(toks, i, path, 1);
    assert(path.take(1) =~= seq![path[0]]);
    assert(toks[i + 0] == path_tokens(path)[0]);
}

proof fn lemma_enrich(toks: Seq<TokView>, i: int, e: EnrichView)
    requires
        stands(toks, i, enrich_tokens(e)),
        e.left_key.len() > 0,
        e.right_key.len() > 0,
    ensures
        enrich_at(toks, i + 1) == Ok::<(EnrichView, int), ErrorView>(
            (e, i + enrich_tokens(e).len()),
        ),
        toks[i] == TokView::Ident("enrich"@),
{
    let head = seq![
        TokView::Ident("enrich"@),
        TokView::Ident(e.output),
        TokView::Ident("using"@),
        TokView::Ident(e.source),
        TokView::Ident("matching"@),
    ];
    let left = path_tokens(e.left_key);
    let eq = seq![TokView::Eq];
    let right = path_tokens(e.right_key);
    let tail = seq![
        TokView::Ident("expect"@),
        TokView::Ident(cardinality_word(e.cardinality)),
    ];
    lemma_stands_split(toks, i, head + left + eq + right, tail);
    lemma_stands_split(toks, i, head + left + eq, right);
    lemma_stands_split(toks, i, head + left, eq);
    lemma_stands_split(toks, i, head, left);
    assert(toks[i + 0] == head[0]);
    assert(toks[i + 1] == head[1]);
    assert(toks[i + 2] == head[2]);
    assert(toks[i + 3] == head[3]);
    assert(toks[i + 4] == head[4]);
    let j = i + 5 + left.len();
    assert(toks[j + 0] == eq[0]);
    let k = j + 1 + right.len();
    assert(toks[k + 0] == tail[0]);
    assert(toks[k + 1] == tail[1]);
    lemma_path(toks, i + 5, e.left_key);
    lemma_path(toks, j + 1, e.right_key);
    lemma_cardinality(e.cardinality);
}

/// The fields that paths name.
pub open spec fn path_fields(paths: Seq<Seq<Seq<char>>>) -> Seq<FieldView> {
    Seq::new(paths.len(), |i: int| FieldView::Path(paths[i]))
}

proof fn lemma_fields(
    toks: Seq<TokView>,
    done: Seq<FieldView>,
    i: int,
    paths: Seq<Seq<Seq<char>>>,
)
    requires
        stands(toks, i, fields_tokens(paths)),
        forall|k: int| 0 <= k < paths.len() ==> (#[trigger] paths[k]).len() > 0,
        token_at(toks, i + fields_tokens(paths).len(), TokView::RBrace),
    ensures
        fields_at(toks, done, i) == Ok::<(Seq<FieldView>, int), ErrorView>(
            (done + path_fields(paths), i + fields_tokens(paths).len() + 1),
        ),
    decreases paths.len(),
{
    if paths.len() == 0 {
        assert(done + path_fields(paths) =~= done);
    } else {
        let first = path_tokens(paths[0]);
        let comma = seq![TokView::Comma];
        let later = paths.drop_first();
        let rest = fields_tokens(later);
        lemma_stands_split(toks, i, first + comma, rest);
        lemma_stands_split(toks, i, first, comma);
        assert(paths[0].len() > 0);
        let j = i + first.len();
        assert(toks[j + 0] == comma[0]);
        lemma_path(toks, i, paths[0]);
        if paths[0].len() > 1 {
            assert(toks[i + 1] == first[1]);
        }
        assert(!token_at(toks, i + 1, TokView::LBrace));
        assert(field_at(toks, i) == Ok::<(FieldView, int), ErrorView>(
            (FieldView::Path(paths[0]), j),
        ));
        assert forall|k: int| 0 <= k < later.len() implies (#[trigger] later[k]).len() > 0 by {
            assert(later[k] == paths[k + 1]);
        }
        let next = done.push(FieldView::Path(paths[0]));
        lemma_fields(toks, next, j + 1, later);
        assert(next + path_fields(later) =~= done + path_fields(paths));
    }
}

proof fn lemma_project(
    toks: Seq<TokView>,
    p: ProgramView,
    i: int,
    project: Option<Seq<Seq<Seq<char>>>>,
)
    requires
        stands(toks, i, project_tokens(project)),
        i + project_tokens(project).len() == toks.len(),
        p.from is Some,
        p.project is None,
        project is Some ==> forall|k: int|
            0 <= k < project->0.len() ==> (#[trigger] project->0[k]).len() > 0,
    ensures
        program_at(toks, p, i) == Ok::<ProgramView, ErrorView>(
            ProgramView {
                project: match project {
                    None => None,
                    Some(paths) => Some(path_fields(paths)),
                },
                ..p
            },
        ),
{
    if let Some(paths) = project {
        let open = seq![TokView::Ident("project"@), TokView::LBrace];
        let body = fields_tokens(paths);
        let close = seq![TokView::RBrace];
        lemma_stands_split(toks, i, open + body, close);
        lemma_stands_split(toks, i, open, body);
        assert(toks[i + 0] == open[0]);
        assert(toks[i + 1] == open[1]);
        let end = i + 2 + body.len();
        assert(toks[end + 0] == close[0]);
        lemma_fields(toks, Seq::empty(), i + 2, paths);
        assert(Seq::<FieldView>::empty() + path_fields(paths) =~= path_fields(paths));
        lemma_keywords();
        assert(block_at(toks, i + 1) == Ok::<(Seq<FieldView>, int), ErrorView>(
            (path_fields(paths), end + 1),
        ));
        let after = ProgramView { project: Some(path_fields(paths)), ..p };
        assert(program_at(toks, after, end + 1) == Ok::<ProgramView, ErrorView>(after));
        assert(keyword_at(toks, i, "project"@));
    }
}

proof fn lemma_keywords()
    ensures
        lowered("from"@) != lowered("enrich"@),
        lowered("from"@) != lowered("project"@),
        lowered("enrich"@) != lowered("project"@),
{
    reveal_strlit("from");
    reveal_strlit("enrich");
    reveal_strlit("project");
    assert(lowered("from"@).len() == 4);
    assert(lowered("enrich"@).len() == 6);
    assert(lowered("project"@).len() == 7);
}

proof fn lemma_enriches(
    toks: Seq<TokView>,
    p: ProgramView,
    i: int,
    steps: Seq<EnrichView>,
    project: Option<Seq<Seq<Seq<char>>>>,
)
    requires
        stands(toks, i, enriches_tokens(steps) + project_tokens(project)),
        i + enriches_tokens(steps).len() + project_tokens(project).len() == toks.len(),
        p.from is Some,
        p.project is None,
        forall|k: int|
            0 <= k < steps.len() ==> (#[trigger] steps[k]).left_key.len() > 0
                && steps[k].right_key.len() > 0,
        project is Some ==> forall|k: int|
            0 <= k < project->0.len() ==> (#[trigger] project->0[k]).len() > 0,
    ensures
        program_at(toks, p, i) == Ok::<ProgramView, ErrorView>(
            ProgramView {
                from: p.from,
                enriches: p.enriches + steps,
                project: match project {
                    None => None,
                    Some(paths) => Some(path_fields(paths)),
                },
            },
        ),
    decreases steps.len(),
{
    lemma_stands_split(toks, i, enriches_tokens(steps), project_tokens(project));
    if steps.len() == 0 {
        lemma_project(toks, p, i, project);
        assert(p.enriches + steps =~= p.enriches);
    } else {
        let first = enrich_tokens(steps[0]);
        let later = steps.drop_first();
        let rest = enriches_tokens(later);
        lemma_stands_split(toks, i, first, rest);
        assert(steps[0].left_key.len() > 0);
        lemma_enrich(toks, i, steps[0]);
        lemma_keywords();
        let j = i + first.len();
        let next = ProgramView { enriches: p.enriches.push(steps[0]), ..p };
        assert forall|k: int| 0 <= k < later.len() implies (#[trigger] later[k]).left_key.len() > 0
            && later[k].right_key.len() > 0 by {
            assert(later[k] == steps[k + 1]);
        }
        assert(first + rest + project_tokens(project) =~= first + (rest + project_tokens(project)));
        lemma_stands_split(toks, i, first, rest + project_tokens(project));
        lemma_enriches(toks, next, j, later, project);
        assert(next.enriches + later =~= p.enriches + steps);
    }
}

/// A program is read as what it says, however its words are spaced: the
/// collection behind `from`, the steps behind each `enrich` in their order,
/// with the two sides of the match as they stand, and the fields of the
/// projection in their order.
pub proof fn law_program_is_read_as_it_says(
    source: Seq<char>,
    steps: Seq<EnrichView>,
    project: Option<Seq<Seq<Seq<char>>>>,
    words: Seq<Seq<char>>,
    gaps: Seq<Seq<char>>,
)
    requires
        spelled(words, gaps, program_tokens(source, steps, project)),
        forall|k: int|
            0 <= k < steps.len() ==> (#[trigger] steps[k]).left_key.len() > 0
                && steps[k].right_key.len() > 0,
        project is Some ==> forall|k: int|
            0 <= k < project->0.len() ==> (#[trigger] project->0[k]).len() > 0,
    ensures
        program_in(typed(words, gaps)) is Ok,
        ({
            let p = program_in(typed(words, gaps))->Ok_0;
            &&& p.from == Some(source)
            &&& p.enriches == steps
            &&& project is None ==> p.project is None
            &&& project is Some ==> p.project is Some && p.project->0.len() == project->0.len()
            &&& project is Some ==> forall|k: int|
                0 <= k < project->0.len() ==> #[trigger] p.project->0[k] == FieldView::Path(
                    project->0[k],
                )
        }),
{
    let toks = program_tokens(source, steps, project);
    lemma_typed(Seq::empty(), words, gaps, toks);
    assert(Seq::<char>::empty() + typed(words, gaps) =~= typed(words, gaps));
    let open = seq![TokView::Ident("from"@), TokView::Ident(source)];
    let rest = enriches_tokens(steps) + project_tokens(project);
    assert(toks =~= open + rest);
    assert(stands(toks, 0, open + rest));
    lemma_stands_split(toks, 0, open, rest);
    assert(toks[0] == open[0] && toks[1] == open[1]);
    lemma_keywords();
    let none = ProgramView { from: None, enriches: Seq::empty(), project: None };
    let p = ProgramView { from: Some(source), ..none };
    lemma_enriches(toks, p, 2, steps, project);
    assert(p.enriches + steps =~= steps);
    assert(program_at(toks, none, 0) == program_at(toks, p, 2));
}

/// An enrich step matches the left row with its source by the two keys of the
/// step, and takes exactly one match, at most one, or all of them, as the step
/// expects.
pub proof fn law_enrich_is_written_as_it_expects(step: EnrichView)
    ensures
        ({
            let left = path_text("l"@, step.left_key);
            let right = path_text("r"@, step.right_key);
            let all = "Match(l, "@ + step.source + ", "@ + (left + ", "@ + right + ")"@);
            &&& step.cardinality == Cardinality::ExactlyOne ==> enrich_value(step) == "one!("@ + all
                + ")"@
            &&& step.cardinality == Cardinality::Optional ==> enrich_value(step) == "one?("@ + all
                + ")"@
            &&& step.cardinality == Cardinality::Many ==> enrich_value(step) == all
        }),
{
}

} // verus!
