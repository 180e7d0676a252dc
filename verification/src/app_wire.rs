//! Application calls on the wire: requests written, replies held to what was
//! asked.
use crate::app_v1::{
    hole_views, query_rows, zero16, CollectionId, ConsistencyEvidence, ConsistencyMode,
    Continuation, CoverageEvidence, CoveragePolicy, DurabilityMode, HeapId, HoleEvidence, HoleView,
    Parameters, QueryBudget, QueryId, QueryPage, QueryPageView, QueryRow, QueryRunOptions,
    WriteReceipt, RQL_FULL_PROFILE,
};
use crate::codec::{
    array16, array32, hex_bytes, read_hex, read_utf8, same16, same32, utf8_in,
};
use crate::covered_reads::copy_bytes;
use crate::error::{outcome, Error, ErrorView};
use crate::json::{
    bool_in, group_json_model, member_in, members, models, text_in, text_value, u64_in,
    with_member, Json, JsonMap, JsonNumber, JsonView, NumberView,
};
use crate::text::{cat2, chars_of, decimal, decimal_text, same_text, texts};
use vstd::prelude::*;

verus! {

broadcast use group_json_model;

/// The refusal of a reply that breaks the protocol.
pub open spec fn protocol_refusal(message: Seq<char>) -> ErrorView {
    ErrorView::ProtocolViolation(message)
}

pub(crate) fn protocol_error(message: &str) -> (r: Error)
    ensures
        r@ == protocol_refusal(message@),
{
    Error::ProtocolViolation(message.to_string())
}

/// `s` without its dashes.
pub open spec fn undashed(s: Seq<char>) -> Seq<char>
    decreases s.len(),
{
    if s.len() == 0 {
        s
    } else if s.last() == '-' {
        undashed(s.drop_last())
    } else {
        undashed(s.drop_last()).push(s.last())
    }
}

fn drop_dashes(s: &str) -> (r: String)
    ensures
        r@ == undashed(s@),
{
    let chars = chars_of(s);
    let mut out = String::new();
    proof {
        assert(s@.take(0) =~= Seq::empty());
    }
    for i in 0..chars.len()
        invariant
            chars@ == s@,
            out@ == undashed(s@.take(i as int)),
    {
        proof {
            assert(s@.take(i + 1).drop_last() =~= s@.take(i as int));
            assert(s@.take(i + 1).last() == chars@[i as int]);
        }
        if chars[i] != '-' {
            out.push(chars[i]);
        }
    }
    proof {
        assert(s@.take(s@.len() as int) =~= s@);
    }
    out
}

/// Hexadecimal text of `n` bytes, dashes aside.
pub open spec fn wire_bytes(s: Seq<char>, n: nat) -> Result<Seq<u8>, ErrorView> {
    let clean = vstd::utf8::encode_utf8(undashed(s));
    if clean.len() != 2 * n {
        Err(
            protocol_refusal(
                "expected "@ + decimal(n) + "-byte hex, got len "@ + decimal(clean.len()),
            ),
        )
    } else {
        match hex_bytes(clean) {
            Some(b) => Ok(b),
            None => Err(protocol_refusal("hex: invalid digit found in string"@)),
        }
    }
}

/// Hexadecimal text spells half as many bytes as it has characters.
pub proof fn lemma_hex_len(text: Seq<u8>)
    ensures
        hex_bytes(text) matches Some(b) ==> text.len() == 2 * b.len(),
    decreases text.len(),
{
    if text.len() > 1 {
        lemma_hex_len(text.take(text.len() - 2));
    }
}

fn wire_hex(s: &str, n: usize) -> (r: Result<Vec<u8>, Error>)
    requires
        n <= 1024,
    ensures
        match r {
            Ok(v) => wire_bytes(s@, n as nat) == Ok::<Seq<u8>, ErrorView>(v@) && v@.len() == n,
            Err(e) => wire_bytes(s@, n as nat) == Err::<Seq<u8>, ErrorView>(e@),
        },
{
    let clean = drop_dashes(s);
    let bytes = clean.as_str().as_bytes();
    if bytes.len() != 2 * n {
        let want = decimal_text(n as u64);
        let got = decimal_text(bytes.len() as u64);
        return Err(
            Error::ProtocolViolation(
                crate::text::cat4(
                    "expected ",
                    want.as_str(),
                    "-byte hex, got len ",
                    got.as_str(),
                ),
            ),
        );
    }
    proof {
        lemma_hex_len(bytes@);
    }
    match read_hex(bytes) {
        Some(v) => Ok(v),
        None => Err(protocol_error("hex: invalid digit found in string")),
    }
}

/// Reads sixteen bytes in hexadecimal; dashes are left out.
pub fn parse_hex16(s: &str) -> (r: Result<[u8; 16], Error>)
    ensures
        match r {
            Ok(b) => wire_bytes(s@, 16) == Ok::<Seq<u8>, ErrorView>(b@),
            Err(e) => wire_bytes(s@, 16) == Err::<Seq<u8>, ErrorView>(e@),
        },
{
    let v = wire_hex(s, 16)?;
    Ok(array16(v.as_slice()))
}

/// Reads thirty-two bytes in hexadecimal; dashes are left out.
pub fn parse_hex32(s: &str) -> (r: Result<[u8; 32], Error>)
    ensures
        match r {
            Ok(b) => wire_bytes(s@, 32) == Ok::<Seq<u8>, ErrorView>(b@),
            Err(e) => wire_bytes(s@, 32) == Err::<Seq<u8>, ErrorView>(e@),
        },
{
    let v = wire_hex(s, 32)?;
    Ok(array32(v.as_slice()))
}

/// Exactly `n` bytes in hexadecimal, where the text is that.
pub open spec fn exact_hex(s: Seq<char>, n: nat) -> Option<Seq<u8>> {
    let text = vstd::utf8::encode_utf8(s);
    if text.len() == 2 * n {
        hex_bytes(text)
    } else {
        None
    }
}

/// Reads thirty-two bytes in hexadecimal.
pub fn hex_to_32(s: &str) -> (r: Option<[u8; 32]>)
    ensures
        match r {
            Some(b) => exact_hex(s@, 32) == Some(b@),
            None => exact_hex(s@, 32) is None,
        },
{
    let bytes = s.as_bytes();
    if bytes.len() != 64 {
        return None;
    }
    proof {
        lemma_hex_len(bytes@);
    }
    match read_hex(bytes) {
        Some(v) => Some(array32(v.as_slice())),
        None => None,
    }
}

/// Reads sixteen bytes in hexadecimal.
pub fn hex_to_16(s: &str) -> (r: Option<[u8; 16]>)
    ensures
        match r {
            Some(b) => exact_hex(s@, 16) == Some(b@),
            None => exact_hex(s@, 16) is None,
        },
{
    let bytes = s.as_bytes();
    if bytes.len() != 32 {
        return None;
    }
    proof {
        lemma_hex_len(bytes@);
    }
    match read_hex(bytes) {
        Some(v) => Some(array16(v.as_slice())),
        None => None,
    }
}

/// A collection id on the wire. `parsed` is what the id type reads the text as,
/// where it does; hexadecimal text is read too, and a zero id is refused with
/// the id type's words.
pub open spec fn wire_collection(s: Seq<char>, parsed: Option<Seq<u8>>, zero: Seq<char>) -> Result<
    Seq<u8>,
    ErrorView,
> {
    match parsed {
        Some(id) => Ok(id),
        None => match wire_bytes(s, 16) {
            Err(e) => Err(e),
            Ok(b) => if b == Seq::new(16, |i: int| 0u8) {
                Err(protocol_refusal("collection_id: "@ + zero))
            } else {
                Ok(b)
            },
        },
    }
}

/// What an optional id holds.
pub open spec fn id_bytes(id: Option<[u8; 16]>) -> Option<Seq<u8>> {
    match id {
        Some(b) => Some(b@),
        None => None,
    }
}

/// Reads a collection id on the wire.
pub fn collection_id_from_wire(s: &str, parsed: Option<[u8; 16]>, zero: &str) -> (r: Result<
    CollectionId,
    Error,
>)
    ensures
        match r {
            Ok(id) => wire_collection(s@, id_bytes(parsed), zero@) == Ok::<Seq<u8>, ErrorView>(
                id.0@,
            ),
            Err(e) => wire_collection(s@, id_bytes(parsed), zero@) == Err::<Seq<u8>, ErrorView>(e@),
        },
{
    if let Some(id) = parsed {
        return Ok(CollectionId(id));
    }
    let bytes = parse_hex16(s)?;
    if same16(&bytes, &zero16()) {
        return Err(Error::ProtocolViolation(cat2("collection_id: ", zero)));
    }
    Ok(CollectionId(bytes))
}

/// The member of a value that is a string.
pub open spec fn text_member(j: JsonView, key: Seq<char>) -> Option<Seq<char>> {
    text_in(member_in(j, key))
}

/// The member of a value that is a boolean.
pub open spec fn bool_member(j: JsonView, key: Seq<char>) -> Option<bool> {
    bool_in(member_in(j, key))
}

/// The member of a value that is a non-negative integer.
pub open spec fn u64_member(j: JsonView, key: Seq<char>) -> Option<u64> {
    match member_in(j, key) {
        Some(v) => u64_in(v),
        None => None,
    }
}

/// The member of a value that is an array.
pub open spec fn array_member(j: JsonView, key: Seq<char>) -> Option<Seq<JsonView>> {
    match member_in(j, key) {
        Some(JsonView::Array(items)) => Some(items),
        _ => None,
    }
}

/// The member of a member.
pub open spec fn inner_member(j: JsonView, outer: Seq<char>, inner: Seq<char>) -> Option<JsonView> {
    match member_in(j, outer) {
        Some(v) => member_in(v, inner),
        None => None,
    }
}

pub(crate) fn get_text<'a>(j: &'a Json, key: &str) -> (r: Option<&'a str>)
    ensures
        match r {
            Some(s) => text_member(j@, key@) == Some(s@),
            None => text_member(j@, key@) is None,
        },
{
    match j.get(key) {
        Some(v) => v.as_str(),
        None => None,
    }
}

pub(crate) fn get_bool(j: &Json, key: &str) -> (r: Option<bool>)
    ensures
        r == bool_member(j@, key@),
{
    match j.get(key) {
        Some(v) => v.as_bool(),
        None => None,
    }
}

pub(crate) fn get_u64(j: &Json, key: &str) -> (r: Option<u64>)
    ensures
        r == u64_member(j@, key@),
{
    match j.get(key) {
        Some(v) => v.as_u64(),
        None => None,
    }
}

pub(crate) fn get_array<'a>(j: &'a Json, key: &str) -> (r: Option<&'a Vec<Json>>)
    ensures
        match r {
            Some(v) => array_member(j@, key@) == Some(models(v@)),
            None => array_member(j@, key@) is None,
        },
{
    match j.get(key) {
        Some(v) => v.as_array(),
        None => None,
    }
}

/// A non-negative integer as JSON.
pub open spec fn uint(n: u64) -> JsonView {
    JsonView::Number(NumberView::PosInt(n))
}

fn uint_value(n: u64) -> (r: Json)
    ensures
        r@ == uint(n),
{
    Json::Number(JsonNumber::PosInt(n))
}

/// A member added where there is a value for it.
pub open spec fn with_optional(
    m: Seq<(Seq<char>, JsonView)>,
    key: Seq<char>,
    value: Option<JsonView>,
) -> Seq<(Seq<char>, JsonView)> {
    match value {
        Some(v) => with_member(m, key, v),
        None => m,
    }
}

fn put_optional(m: &mut JsonMap, key: &str, value: Option<Json>)
    ensures
        final(m)@ == with_optional(
            old(m)@,
            key@,
            match value {
                Some(v) => Some(v@),
                None => None,
            },
        ),
{
    if let Some(v) = value {
        m.insert(key.to_string(), v);
    }
}

/// An optional integer as JSON.
pub open spec fn optional_uint(n: Option<u64>) -> Option<JsonView> {
    match n {
        Some(v) => Some(uint(v)),
        None => None,
    }
}

fn optional_uint_value(n: Option<u64>) -> (r: Option<Json>)
    ensures
        match r {
            Some(v) => optional_uint(n) == Some(v@),
            None => optional_uint(n) is None,
        },
{
    match n {
        Some(v) => Some(uint_value(v)),
        None => None,
    }
}

/// The limits of a query as JSON members.
pub open spec fn budget_members(b: QueryBudget) -> Seq<(Seq<char>, JsonView)> {
    let one = with_optional(Seq::empty(), "max_documents"@, optional_uint(b.max_documents));
    let two = with_optional(one, "max_bytes"@, optional_uint(b.max_bytes));
    with_optional(two, "max_result_bytes"@, optional_uint(b.max_result_bytes))
}

/// How a coverage policy is written.
pub open spec fn coverage_word(c: CoveragePolicy) -> Seq<char> {
    match c {
        CoveragePolicy::Complete => "complete"@,
        CoveragePolicy::IncompleteAllowed => "incomplete_allowed"@,
    }
}

/// How a consistency mode is written.
pub open spec fn consistency_word(c: ConsistencyMode) -> Seq<char> {
    match c {
        ConsistencyMode::Available => "available"@,
        ConsistencyMode::Current => "current"@,
    }
}

/// The arguments of a query on the wire. A continuation that is not UTF-8 is
/// an error.
pub open spec fn query_args(
    source: Seq<char>,
    parameters: Seq<(Seq<char>, JsonView)>,
    options: QueryRunOptions,
    profile: Option<Seq<char>>,
) -> Result<Seq<(Seq<char>, JsonView)>, ErrorView> {
    let a = with_member(Seq::empty(), "source"@, JsonView::Text(source));
    let b = with_optional(
        a,
        "profile"@,
        match profile {
            Some(p) => Some(JsonView::Text(p)),
            None => None,
        },
    );
    let c = if parameters.len() > 0 {
        with_member(b, "parameters"@, JsonView::Object(parameters))
    } else {
        b
    };
    let d = if options.explain {
        with_member(c, "explain"@, JsonView::Bool(true))
    } else {
        c
    };
    let e = with_optional(
        d,
        "page_size"@,
        match options.page_size {
            Some(n) => Some(uint(n as u64)),
            None => None,
        },
    );
    let f = with_member(e, "coverage"@, JsonView::Text(coverage_word(options.coverage)));
    let g = with_member(f, "consistency"@, JsonView::Text(consistency_word(options.consistency)));
    let with_budget = |m: Seq<(Seq<char>, JsonView)>|
        match options.budget {
            Some(budget) => if budget_members(budget).len() > 0 {
                with_member(m, "budget"@, JsonView::Object(budget_members(budget)))
            } else {
                m
            },
            None => m,
        };
    match options.after {
        Some(cont) => match utf8_in(cont.token@) {
            Some(token) => Ok(
                with_budget(with_member(g, "continuation"@, JsonView::Text(token))),
            ),
            None => Err(
                ErrorView::QueryInvalid("continuation token must be UTF-8 for wire op 118"@),
            ),
        },
        None => Ok(with_budget(g)),
    }
}

/// Writes the arguments of a query.
pub fn rql_wire_args(
    source: &str,
    parameters: &Parameters,
    options: &QueryRunOptions,
    profile: Option<&str>,
) -> (r: Result<JsonMap, Error>)
    ensures
        ({
            let args = query_args(
                source@,
                parameters.values@,
                *options,
                match profile {
                    Some(p) => Some(p@),
                    None => None,
                },
            );
            match r {
                Ok(m) => args == Ok::<Seq<(Seq<char>, JsonView)>, ErrorView>(m@),
                Err(e) => args == Err::<Seq<(Seq<char>, JsonView)>, ErrorView>(e@),
            }
        }),
{
    let mut args = JsonMap::new();
    args.insert("source".to_string(), text_value(source));
    if let Some(p) = profile {
        args.insert("profile".to_string(), text_value(p));
    }
    if !parameters.values.is_empty() {
        args.insert("parameters".to_string(), Json::Object(parameters.values.clone()));
    }
    if options.explain {
        args.insert("explain".to_string(), Json::Bool(true));
    }
    if let Some(n) = options.page_size {
        args.insert("page_size".to_string(), uint_value(n as u64));
    }
    let coverage = match options.coverage {
        CoveragePolicy::Complete => "complete",
        CoveragePolicy::IncompleteAllowed => "incomplete_allowed",
    };
    args.insert("coverage".to_string(), text_value(coverage));
    let consistency = match options.consistency {
        ConsistencyMode::Available => "available",
        ConsistencyMode::Current => "current",
    };
    args.insert("consistency".to_string(), text_value(consistency));
    if let Some(cont) = &options.after {
        match read_utf8(cont.token.as_slice()) {
            Some(token) => {
                args.insert("continuation".to_string(), Json::Text(token));
            },
            None => {
                return Err(
                    Error::QueryInvalid(
                        "continuation token must be UTF-8 for wire op 118".to_string(),
                    ),
                );
            },
        }
    }
    if let Some(b) = options.budget {
        let mut limits = JsonMap::new();
        put_optional(&mut limits, "max_documents", optional_uint_value(b.max_documents));
        put_optional(&mut limits, "max_bytes", optional_uint_value(b.max_bytes));
        put_optional(&mut limits, "max_result_bytes", optional_uint_value(b.max_result_bytes));
        if !limits.is_empty() {
            args.insert("budget".to_string(), Json::Object(limits));
        }
    }
    Ok(args)
}

/// The rows of a reply: each with a key and a value. The messages are those of
/// the refusals.
pub open spec fn reply_rows(items: Seq<JsonView>, no_key: Seq<char>, no_value: Seq<char>) -> Result<
    Seq<(Seq<char>, JsonView)>,
    ErrorView,
>
    decreases items.len(),
{
    if items.len() == 0 {
        Ok(Seq::empty())
    } else {
        match reply_rows(items.drop_last(), no_key, no_value) {
            Err(e) => Err(e),
            Ok(rows) => match text_member(items.last(), "key"@) {
                None => Err(protocol_refusal(no_key)),
                Some(key) => match member_in(items.last(), "value"@) {
                    None => Err(protocol_refusal(no_value)),
                    Some(value) => Ok(rows.push((key, value))),
                },
            },
        }
    }
}

proof fn lemma_rows_refused(items: Seq<JsonView>, no_key: Seq<char>, no_value: Seq<char>, n: int)
    requires
        0 <= n <= items.len(),
        reply_rows(items.take(n), no_key, no_value) is Err,
    ensures
        reply_rows(items, no_key, no_value) == reply_rows(items.take(n), no_key, no_value),
    decreases items.len(),
{
    if n < items.len() {
        assert(items.drop_last().take(n) =~= items.take(n));
        lemma_rows_refused(items.drop_last(), no_key, no_value, n);
    } else {
        assert(items.take(n) =~= items);
    }
}

fn read_rows(items: &Vec<Json>, no_key: &str, no_value: &str) -> (r: Result<Vec<QueryRow>, Error>)
    ensures
        match r {
            Ok(rows) => reply_rows(models(items@), no_key@, no_value@) == Ok::<
                Seq<(Seq<char>, JsonView)>,
                ErrorView,
            >(query_rows(rows@)),
            Err(e) => reply_rows(models(items@), no_key@, no_value@) == Err::<
                Seq<(Seq<char>, JsonView)>,
                ErrorView,
            >(e@),
        },
{
    let ghost all = models(items@);
    let mut out: Vec<QueryRow> = Vec::new();
    proof {
        assert(all.take(0) =~= Seq::empty());
        assert(query_rows(out@) =~= Seq::empty());
    }
    for i in 0..items.len()
        invariant
            all == models(items@),
            reply_rows(all.take(i as int), no_key@, no_value@) == Ok::<
                Seq<(Seq<char>, JsonView)>,
                ErrorView,
            >(query_rows(out@)),
    {
        let ghost before = query_rows(out@);
        proof {
            assert(all.take(i + 1).drop_last() =~= all.take(i as int));
            assert(all.take(i + 1).last() == items@[i as int]@);
        }
        let key = match get_text(&items[i], "key") {
            Some(k) => k.to_string(),
            None => {
                proof {
                    lemma_rows_refused(all, no_key@, no_value@, i + 1);
                }
                return Err(protocol_error(no_key));
            },
        };
        match items[i].get("value") {
            Some(v) => {
                out.push(QueryRow { key, value: v.clone() });
                proof {
                    assert(query_rows(out@) =~= before.push(out@[out@.len() - 1]@));
                }
            },
            None => {
                proof {
                    lemma_rows_refused(all, no_key@, no_value@, i + 1);
                }
                return Err(protocol_error(no_value));
            },
        }
    }
    proof {
        assert(all.take(all.len() as int) =~= all);
    }
    Ok(out)
}

/// The holes of a reply.
pub open spec fn reply_holes(
    items: Seq<JsonView>,
    code_name: Seq<char>,
    unknown: Seq<char>,
) -> Seq<HoleView> {
    items.map_values(
        |h: JsonView|
            HoleView {
                code: match text_member(h, code_name) {
                    Some(c) => c,
                    None => unknown,
                },
                key: text_member(h, "key"@),
            },
    )
}

pub(crate) fn read_holes(items: &Vec<Json>, code_name: &str, unknown: &str) -> (r: Vec<HoleEvidence>)
    ensures
        hole_views(r@) == reply_holes(models(items@), code_name@, unknown@),
{
    let ghost want = reply_holes(models(items@), code_name@, unknown@);
    let mut out: Vec<HoleEvidence> = Vec::new();
    for i in 0..items.len()
        invariant
            want == reply_holes(models(items@), code_name@, unknown@),
            out@.len() == i,
            forall|k: int| 0 <= k < i ==> (#[trigger] out@[k])@ == want[k],
    {
        let code = match get_text(&items[i], code_name) {
            Some(c) => c.to_string(),
            None => unknown.to_string(),
        };
        let key = match get_text(&items[i], "key") {
            Some(k) => Some(k.to_string()),
            None => None,
        };
        out.push(HoleEvidence { code, key });
        proof {
            assert(models(items@)[i as int] == items@[i as int]@);
        }
    }
    proof {
        assert(hole_views(out@) =~= want);
    }
    out
}

/// Where a reply says to go on: text or `null`.
pub open spec fn reply_next(result: JsonView) -> Result<Option<Seq<u8>>, ErrorView> {
    match member_in(result, "next"@) {
        None => Ok(None),
        Some(JsonView::Null) => Ok(None),
        Some(JsonView::Text(s)) => Ok(Some(vstd::utf8::encode_utf8(s))),
        Some(_) => Err(protocol_refusal("rql_query next must be string or null"@)),
    }
}

/// The number of things, as the evidence counts them.
pub open spec fn counted(n: nat) -> u64 {
    if n <= u64::MAX {
        n as u64
    } else {
        u64::MAX
    }
}

/// What a reply covers: everything, unless it says otherwise or names a hole.
pub open spec fn reply_coverage(result: JsonView, rows: nat, holes: nat) -> CoverageEvidence {
    let complete = bool_in(inner_member(result, "coverage"@, "complete"@)) != Some(false) && holes
        == 0;
    let mode = if text_in(inner_member(result, "coverage"@, "mode"@)) == Some(
        "incomplete_allowed"@,
    ) {
        CoveragePolicy::IncompleteAllowed
    } else {
        CoveragePolicy::Complete
    };
    CoverageEvidence {
        complete,
        mode,
        examined_documents: counted(rows + holes),
        hole_count: holes as u32,
    }
}

/// Evidence is honest about the holes that are known: it is complete only where
/// there is none, and it counts them. A count is kept in thirty-two bits.
pub open spec fn coverage_is_honest(coverage: CoverageEvidence, holes: nat) -> bool {
    &&& coverage.complete ==> holes == 0
    &&& holes <= u32::MAX ==> coverage.hole_count == holes
}

/// How fresh a reply says it is.
pub open spec fn reply_consistency(result: JsonView) -> ConsistencyEvidence {
    ConsistencyEvidence {
        mode: if text_in(inner_member(result, "consistency"@, "mode"@)) == Some("current"@) {
            ConsistencyMode::Current
        } else {
            ConsistencyMode::Available
        },
    }
}

/// What the id types say of the ids in a reply.
pub struct WireIds {
    /// What the heap id type reads the heap id as, or its refusal.
    pub heap: Result<[u8; 16], String>,
    /// What the collection id type reads the collection id as, where it does.
    pub collection: Option<[u8; 16]>,
    /// How the collection id type refuses a zero id.
    pub zero: String,
}

/// The ids of a reply hold: they are there, they read, and they are those of
/// the handle that asked. The first thing that is wrong is the error.
pub open spec fn reply_ids_refused(
    result: JsonView,
    ids: WireIds,
    heap: Seq<u8>,
    collection: Seq<u8>,
) -> Option<ErrorView> {
    match text_member(result, "heap_id"@) {
        None => Some(protocol_refusal("rql_query missing heap_id"@)),
        Some(_) => match ids.heap {
            Err(m) => Some(protocol_refusal("rql_query bad heap_id: "@ + m@)),
            Ok(h) => if h@ != heap {
                Some(protocol_refusal("rql_query response crossed the bound Heap identity"@))
            } else {
                match text_member(result, "collection_id"@) {
                    None => Some(protocol_refusal("rql_query missing collection_id"@)),
                    Some(text) => match wire_collection(text, id_bytes(ids.collection), ids.zero@) {
                        Err(e) => Some(e),
                        Ok(c) => if c != collection {
                            Some(
                                protocol_refusal(
                                    "rql_query response crossed the bound collection identity"@,
                                ),
                            )
                        } else {
                            None
                        },
                    },
                }
            },
        },
    }
}

/// The page that a reply gives to the handle that asked.
pub open spec fn reply_page(
    result: JsonView,
    ids: WireIds,
    heap: Seq<u8>,
    collection: Seq<u8>,
) -> Result<QueryPageView, ErrorView> {
    match reply_ids_refused(result, ids, heap, collection) {
        Some(e) => Err(e),
        None => match text_member(result, "plan_hash"@) {
            None => Err(protocol_refusal("rql_query missing plan_hash"@)),
            Some(hash) => match exact_hex(hash, 32) {
                None => Err(protocol_refusal("rql_query bad plan_hash"@)),
                Some(plan_hash) => match array_member(result, "rows"@) {
                    None => Err(protocol_refusal("rql_query missing rows"@)),
                    Some(items) => match reply_rows(
                        items,
                        "rql_query row key"@,
                        "rql_query row value"@,
                    ) {
                        Err(e) => Err(e),
                        Ok(rows) => match reply_next(result) {
                            Err(e) => Err(e),
                            Ok(next) => {
                                let known_holes = match array_member(result, "known_holes"@) {
                                    Some(list) => reply_holes(list, "code"@, "unknown"@),
                                    None => Seq::empty(),
                                };
                                Ok(
                                    QueryPageView {
                                        query_id: reply_query_id(result),
                                        plan_hash,
                                        heap_id: heap,
                                        collection_id: collection,
                                        rows,
                                        next,
                                        exhausted: bool_member(result, "exhausted"@) == Some(true),
                                        coverage: reply_coverage(
                                            result,
                                            rows.len(),
                                            known_holes.len(),
                                        ),
                                        consistency: reply_consistency(result),
                                        remaining_limit: u64_member(result, "remaining_limit"@),
                                        known_holes,
                                        logical_bytes_examined: match u64_member(
                                            result,
                                            "logical_bytes_examined"@,
                                        ) {
                                            Some(n) => n,
                                            None => 0,
                                        },
                                        diagnostics: None,
                                    },
                                )
                            },
                        },
                    },
                },
            },
        },
    }
}

/// The query id of a reply; zeros where it has none that reads.
pub open spec fn reply_query_id(result: JsonView) -> Seq<u8> {
    match text_member(result, "query_id"@) {
        Some(s) => match exact_hex(s, 16) {
            Some(b) => b,
            None => Seq::new(16, |i: int| 0u8),
        },
        None => Seq::new(16, |i: int| 0u8),
    }
}

/// Checks the ids of a reply.
fn check_ids(result: &Json, ids: &WireIds, heap: &HeapId, collection: &CollectionId) -> (r: Result<
    (),
    Error,
>)
    ensures
        match r {
            Ok(_) => reply_ids_refused(result@, *ids, heap.0@, collection.0@) is None,
            Err(e) => reply_ids_refused(result@, *ids, heap.0@, collection.0@) == Some(e@),
        },
{
    if get_text(result, "heap_id").is_none() {
        return Err(protocol_error("rql_query missing heap_id"));
    }
    match &ids.heap {
        Err(m) => {
            return Err(
                Error::ProtocolViolation(cat2("rql_query bad heap_id: ", m.as_str())),
            );
        },
        Ok(h) => {
            if !same16(h, &heap.0) {
                return Err(
                    protocol_error("rql_query response crossed the bound Heap identity"),
                );
            }
        },
    }
    let text = match get_text(result, "collection_id") {
        Some(t) => t,
        None => {
            return Err(protocol_error("rql_query missing collection_id"));
        },
    };
    let id = collection_id_from_wire(text, ids.collection, ids.zero.as_str())?;
    if !same16(&id.0, &collection.0) {
        return Err(protocol_error("rql_query response crossed the bound collection identity"));
    }
    Ok(())
}

fn read_query_id(result: &Json) -> (r: QueryId)
    ensures
        r.0@ == reply_query_id(result@),
{
    match get_text(result, "query_id") {
        Some(s) => match hex_to_16(s) {
            Some(b) => QueryId(b),
            None => QueryId(zero16()),
        },
        None => QueryId(zero16()),
    }
}

fn read_next(result: &Json) -> (r: Result<Option<Continuation>, Error>)
    ensures
        match r {
            Ok(Some(c)) => reply_next(result@) == Ok::<Option<Seq<u8>>, ErrorView>(Some(c.token@)),
            Ok(None) => reply_next(result@) == Ok::<Option<Seq<u8>>, ErrorView>(None),
            Err(e) => reply_next(result@) == Err::<Option<Seq<u8>>, ErrorView>(e@),
        },
{
    match result.get("next") {
        None => Ok(None),
        Some(Json::Null) => Ok(None),
        Some(Json::Text(s)) => Ok(
            Some(Continuation { token: copy_bytes(s.as_str().as_bytes()) }),
        ),
        Some(_) => Err(protocol_error("rql_query next must be string or null")),
    }
}

fn inner_text<'a>(j: &'a Json, outer: &str, inner: &str) -> (r: Option<&'a str>)
    ensures
        match r {
            Some(s) => text_in(inner_member(j@, outer@, inner@)) == Some(s@),
            None => text_in(inner_member(j@, outer@, inner@)) is None,
        },
{
    match j.get(outer) {
        Some(v) => get_text(v, inner),
        None => None,
    }
}

fn inner_bool(j: &Json, outer: &str, inner: &str) -> (r: Option<bool>)
    ensures
        r == bool_in(inner_member(j@, outer@, inner@)),
{
    match j.get(outer) {
        Some(v) => get_bool(v, inner),
        None => None,
    }
}

pub(crate) fn count_of(rows: usize, holes: usize) -> (r: u64)
    ensures
        r == counted((rows + holes) as nat),
{
    (rows as u64).saturating_add(holes as u64)
}

fn read_coverage(result: &Json, rows: usize, holes: usize) -> (r: CoverageEvidence)
    ensures
        r == reply_coverage(result@, rows as nat, holes as nat),
{
    let denied = match inner_bool(result, "coverage", "complete") {
        Some(b) => !b,
        None => false,
    };
    let mode = match inner_text(result, "coverage", "mode") {
        Some(m) => if same_text(m, "incomplete_allowed") {
            CoveragePolicy::IncompleteAllowed
        } else {
            CoveragePolicy::Complete
        },
        None => CoveragePolicy::Complete,
    };
    let examined = count_of(rows, holes);
    if !denied && holes == 0 {
        CoverageEvidence::complete(mode, examined)
    } else {
        CoverageEvidence::incomplete(mode, examined, holes as u32)
    }
}

/// Reads the reply to a query. The reply must name the heap and the collection
/// of the handle that asked.
pub fn parse_rql_query_result(
    result: &Json,
    ids: &WireIds,
    heap: HeapId,
    collection: CollectionId,
) -> (r: Result<QueryPage, Error>)
    ensures
        outcome(r) == reply_page(result@, *ids, heap.0@, collection.0@),
        r is Ok ==> coverage_is_honest(r->Ok_0.coverage, r->Ok_0.known_holes@.len()),
{
    check_ids(result, ids, &heap, &collection)?;
    let hash = match get_text(result, "plan_hash") {
        Some(h) => h,
        None => {
            return Err(protocol_error("rql_query missing plan_hash"));
        },
    };
    let plan_hash = match hex_to_32(hash) {
        Some(h) => h,
        None => {
            return Err(protocol_error("rql_query bad plan_hash"));
        },
    };
    let query_id = read_query_id(result);
    let items = match get_array(result, "rows") {
        Some(v) => v,
        None => {
            return Err(protocol_error("rql_query missing rows"));
        },
    };
    let rows = read_rows(items, "rql_query row key", "rql_query row value")?;
    let next = read_next(result)?;
    let exhausted = match get_bool(result, "exhausted") {
        Some(b) => b,
        None => false,
    };
    let known_holes: Vec<HoleEvidence> = match get_array(result, "known_holes") {
        Some(list) => read_holes(list, "code", "unknown"),
        None => Vec::new(),
    };
    proof {
        if array_member(result@, "known_holes"@) is None {
            assert(hole_views(known_holes@) =~= Seq::empty());
        }
        assert(query_rows(rows@).len() == rows@.len());
        assert(hole_views(known_holes@).len() == known_holes@.len());
    }
    let coverage = read_coverage(result, rows.len(), known_holes.len());
    let mode = match inner_text(result, "consistency", "mode") {
        Some(m) => if same_text(m, "current") {
            ConsistencyMode::Current
        } else {
            ConsistencyMode::Available
        },
        None => ConsistencyMode::Available,
    };
    let logical_bytes_examined = match get_u64(result, "logical_bytes_examined") {
        Some(n) => n,
        None => 0,
    };
    Ok(
        QueryPage {
            query_id,
            plan_hash,
            heap_id: heap,
            collection_id: collection,
            rows,
            next,
            exhausted,
            coverage,
            consistency: ConsistencyEvidence { mode },
            remaining_limit: get_u64(result, "remaining_limit"),
            known_holes,
            logical_bytes_examined,
            diagnostics: None,
        },
    )
}

/// How the rows of an enrichment were found.
#[derive(Debug, Clone, Copy, PartialEq, Eq, Structural)]
pub enum EnrichAttachMode {
    /// By scanning.
    Scan,
    /// By an equality index.
    EqualityIndex,
}

/// Evidence of one enrichment.
#[derive(Debug, PartialEq, Eq)]
pub struct EnrichLoadEvidence {
    /// The collection that was joined.
    pub using: String,
    /// The field it went to.
    pub output: String,
    /// How its rows were found.
    pub mode: EnrichAttachMode,
}

/// Model of an [`EnrichLoadEvidence`].
#[verifier::ext_equal]
pub struct EnrichLoadView {
    pub using: Seq<char>,
    pub output: Seq<char>,
    pub mode: EnrichAttachMode,
}

impl View for EnrichLoadEvidence {
    type V = EnrichLoadView;

    open spec fn view(&self) -> EnrichLoadView {
        EnrichLoadView { using: self.using@, output: self.output@, mode: self.mode }
    }
}

/// The models of evidence of enrichments.
pub open spec fn load_views(v: Seq<EnrichLoadEvidence>) -> Seq<EnrichLoadView> {
    v.map_values(|l: EnrichLoadEvidence| l@)
}

/// The evidence of one enrichment in a reply.
pub open spec fn reply_load(load: JsonView) -> Result<EnrichLoadView, ErrorView> {
    match text_member(load, "using"@) {
        None => Err(protocol_refusal("rql_query Full enrich using"@)),
        Some(using) => match text_member(load, "output"@) {
            None => Err(protocol_refusal("rql_query Full enrich output"@)),
            Some(output) => if text_member(load, "mode"@) == Some("scan_list_keys_get"@) {
                Ok(EnrichLoadView { using, output, mode: EnrichAttachMode::Scan })
            } else if text_member(load, "mode"@) == Some("equality_index"@) {
                Ok(EnrichLoadView { using, output, mode: EnrichAttachMode::EqualityIndex })
            } else {
                Err(protocol_refusal("rql_query Full enrich mode"@))
            },
        },
    }
}

/// The evidence of every enrichment in a reply.
pub open spec fn reply_loads(items: Seq<JsonView>) -> Result<Seq<EnrichLoadView>, ErrorView>
    decreases items.len(),
{
    if items.len() == 0 {
        Ok(Seq::empty())
    } else {
        match reply_loads(items.drop_last()) {
            Err(e) => Err(e),
            Ok(list) => match reply_load(items.last()) {
                Err(e) => Err(e),
                Ok(l) => Ok(list.push(l)),
            },
        }
    }
}

proof fn lemma_loads_refused(items: Seq<JsonView>, n: int)
    requires
        0 <= n <= items.len(),
        reply_loads(items.take(n)) is Err,
    ensures
        reply_loads(items) == reply_loads(items.take(n)),
    decreases items.len(),
{
    if n < items.len() {
        assert(items.drop_last().take(n) =~= items.take(n));
        lemma_loads_refused(items.drop_last(), n);
    } else {
        assert(items.take(n) =~= items);
    }
}

fn read_load(load: &Json) -> (r: Result<EnrichLoadEvidence, Error>)
    ensures
        outcome(r) == reply_load(load@),
{
    let using = match get_text(load, "using") {
        Some(t) => t.to_string(),
        None => {
            return Err(protocol_error("rql_query Full enrich using"));
        },
    };
    let output = match get_text(load, "output") {
        Some(t) => t.to_string(),
        None => {
            return Err(protocol_error("rql_query Full enrich output"));
        },
    };
    let mode = match get_text(load, "mode") {
        Some(m) => if same_text(m, "scan_list_keys_get") {
            EnrichAttachMode::Scan
        } else if same_text(m, "equality_index") {
            EnrichAttachMode::EqualityIndex
        } else {
            return Err(protocol_error("rql_query Full enrich mode"));
        },
        None => {
            return Err(protocol_error("rql_query Full enrich mode"));
        },
    };
    Ok(EnrichLoadEvidence { using, output, mode })
}

fn read_loads(items: &Vec<Json>) -> (r: Result<Vec<EnrichLoadEvidence>, Error>)
    ensures
        match r {
            Ok(v) => reply_loads(models(items@)) == Ok::<Seq<EnrichLoadView>, ErrorView>(
                load_views(v@),
            ),
            Err(e) => reply_loads(models(items@)) == Err::<Seq<EnrichLoadView>, ErrorView>(e@),
        },
{
    let ghost all = models(items@);
    let mut out: Vec<EnrichLoadEvidence> = Vec::new();
    proof {
        assert(all.take(0) =~= Seq::empty());
        assert(load_views(out@) =~= Seq::empty());
    }
    for i in 0..items.len()
        invariant
            all == models(items@),
            reply_loads(all.take(i as int)) == Ok::<Seq<EnrichLoadView>, ErrorView>(
                load_views(out@),
            ),
    {
        let ghost before = load_views(out@);
        proof {
            assert(all.take(i + 1).drop_last() =~= all.take(i as int));
            assert(all.take(i + 1).last() == items@[i as int]@);
        }
        match read_load(&items[i]) {
            Ok(l) => {
                out.push(l);
                proof {
                    assert(load_views(out@) =~= before.push(l@));
                }
            },
            Err(e) => {
                proof {
                    lemma_loads_refused(all, i + 1);
                }
                return Err(e);
            },
        }
    }
    proof {
        assert(all.take(all.len() as int) =~= all);
    }
    Ok(out)
}

/// One page of a Full query.
#[derive(Debug)]
pub struct RqlFullPage {
    /// Rows after enrichment.
    pub rows: Vec<QueryRow>,
    /// The page the rows were made from.
    pub base: QueryPage,
    /// Evidence of the enrichments.
    pub enrich_loads: Vec<EnrichLoadEvidence>,
}

/// Model of an [`RqlFullPage`].
#[verifier::ext_equal]
pub struct RqlFullPageView {
    pub rows: Seq<(Seq<char>, JsonView)>,
    pub base: QueryPageView,
    pub enrich_loads: Seq<EnrichLoadView>,
}

impl View for RqlFullPage {
    type V = RqlFullPageView;

    open spec fn view(&self) -> RqlFullPageView {
        RqlFullPageView {
            rows: query_rows(self.rows@),
            base: self.base@,
            enrich_loads: load_views(self.enrich_loads@),
        }
    }
}

/// The reply with its base rows in place of its rows.
pub open spec fn base_reply(result: JsonView, base_rows: JsonView) -> JsonView {
    match result {
        JsonView::Object(m) => JsonView::Object(with_member(m, "rows"@, base_rows)),
        other => other,
    }
}

/// The page that a reply to a Full query gives. `program` is the hash of the
/// program that was compiled here; the server must have run that one.
pub open spec fn full_reply(
    result: JsonView,
    ids: WireIds,
    heap: Seq<u8>,
    root: Seq<u8>,
    program: Seq<u8>,
) -> Result<RqlFullPageView, ErrorView> {
    if text_member(result, "profile"@) != Some(RQL_FULL_PROFILE@) {
        Err(protocol_refusal("rql_query Full response missing rql-full-v1 profile"@))
    } else {
        match array_member(result, "rows"@) {
            None => Err(protocol_refusal("rql_query Full missing rows"@)),
            Some(items) => match reply_rows(
                items,
                "rql_query Full row key"@,
                "rql_query Full row value"@,
            ) {
                Err(e) => Err(e),
                Ok(rows) => match member_in(result, "base_rows"@) {
                    None => Err(protocol_refusal("rql_query Full missing base_rows"@)),
                    Some(base_rows) => match reply_page(
                        base_reply(result, base_rows),
                        ids,
                        heap,
                        root,
                    ) {
                        Err(e) => Err(e),
                        Ok(base) => if base.plan_hash != program {
                            Err(
                                protocol_refusal(
                                    "rql_query Full server QVM identity differs from the locally compiled programme"@,
                                ),
                            )
                        } else {
                            match array_member(result, "enrich_loads"@) {
                                None => Err(
                                    protocol_refusal("rql_query Full missing enrich_loads"@),
                                ),
                                Some(loads) => match reply_loads(loads) {
                                    Err(e) => Err(e),
                                    Ok(enrich_loads) => Ok(
                                        RqlFullPageView { rows, base, enrich_loads },
                                    ),
                                },
                            }
                        },
                    },
                },
            },
        }
    }
}

/// Reads the reply to a Full query.
pub fn parse_rql_full_result(
    result: &Json,
    ids: &WireIds,
    heap: HeapId,
    root: CollectionId,
    program: &[u8; 32],
) -> (r: Result<RqlFullPage, Error>)
    ensures
        outcome(r) == full_reply(result@, *ids, heap.0@, root.0@, program@),
{
    let profiled = match get_text(result, "profile") {
        Some(p) => same_text(p, RQL_FULL_PROFILE),
        None => false,
    };
    if !profiled {
        return Err(protocol_error("rql_query Full response missing rql-full-v1 profile"));
    }
    let items = match get_array(result, "rows") {
        Some(v) => v,
        None => {
            return Err(protocol_error("rql_query Full missing rows"));
        },
    };
    let rows = read_rows(items, "rql_query Full row key", "rql_query Full row value")?;
    let base_rows = match result.get("base_rows") {
        Some(v) => v.clone(),
        None => {
            return Err(protocol_error("rql_query Full missing base_rows"));
        },
    };
    let base_result = match result {
        Json::Object(m) => {
            let mut copy = m.clone();
            copy.insert("rows".to_string(), base_rows);
            Json::Object(copy)
        },
        other => other.clone(),
    };
    let base = parse_rql_query_result(&base_result, ids, heap, root)?;
    if !same32(&base.plan_hash, program) {
        return Err(
            protocol_error(
                "rql_query Full server QVM identity differs from the locally compiled programme",
            ),
        );
    }
    let loads = match get_array(result, "enrich_loads") {
        Some(v) => v,
        None => {
            return Err(protocol_error("rql_query Full missing enrich_loads"));
        },
    };
    let enrich_loads = read_loads(loads)?;
    Ok(RqlFullPage { rows, base, enrich_loads })
}

/// A reply that is accepted names the heap and the collection that were asked
/// for: a page of another heap or collection never reaches the caller.
pub proof fn law_accepted_reply_is_bound(
    result: JsonView,
    ids: WireIds,
    heap: Seq<u8>,
    collection: Seq<u8>,
)
    requires
        reply_page(result, ids, heap, collection) is Ok,
    ensures
        ids.heap is Ok,
        ids.heap->Ok_0@ == heap,
        reply_page(result, ids, heap, collection)->Ok_0.heap_id == heap,
        reply_page(result, ids, heap, collection)->Ok_0.collection_id == collection,
        text_member(result, "collection_id"@) is Some,
        wire_collection(
            text_member(result, "collection_id"@)->0,
            id_bytes(ids.collection),
            ids.zero@,
        ) == Ok::<Seq<u8>, ErrorView>(collection),
{
}

/// A page never pretends to be complete: where holes are known it says so, and
/// it counts them.
pub proof fn law_page_tells_its_holes(
    result: JsonView,
    ids: WireIds,
    heap: Seq<u8>,
    collection: Seq<u8>,
)
    requires
        reply_page(result, ids, heap, collection) is Ok,
    ensures
        coverage_is_honest(
            reply_page(result, ids, heap, collection)->Ok_0.coverage,
            reply_page(result, ids, heap, collection)->Ok_0.known_holes.len(),
        ),
{
}

/// Receipt of a write on a server: the event is the version.
pub fn write_receipt_from_remote_ids(key: &str, event_id: &str) -> (r: WriteReceipt)
    ensures
        r.key@ == key@,
        r.event_id@ == (match wire_bytes(event_id@, 16) {
            Ok(b) => b,
            Err(_) => Seq::new(16, |i: int| 0u8),
        }),
        r.version == r.event_id,
        r.acknowledgement == DurabilityMode::Durable,
        r.committed,
        r.store_id@ == Seq::new(16, |i: int| 0u8),
        r.segment_id@ == Seq::new(16, |i: int| 0u8),
{
    let id = match parse_hex16(event_id) {
        Ok(b) => b,
        Err(_) => zero16(),
    };
    WriteReceipt {
        key: key.to_string(),
        event_id: id,
        version: id,
        acknowledgement: DurabilityMode::Durable,
        committed: true,
        store_id: zero16(),
        segment_id: zero16(),
    }
}

/// Metadata of a secondary index.
#[derive(Debug, PartialEq, Eq)]
pub struct IndexInfo {
    /// Name.
    pub name: String,
    /// Collection, by the name it is shown with.
    pub collection: String,
    /// Fields in order.
    pub fields: Vec<String>,
    /// State, by the store's name for it.
    pub state: String,
    /// Number of entries.
    pub entry_count: u64,
    /// Whether every document is in it.
    pub complete_coverage: bool,
    /// Why the last build failed; empty where it did not.
    pub failure_reason: String,
    /// Build id in hexadecimal.
    pub build_id_hex: String,
}

/// Model of an [`IndexInfo`].
#[verifier::ext_equal]
pub struct IndexInfoView {
    pub name: Seq<char>,
    pub collection: Seq<char>,
    pub fields: Seq<Seq<char>>,
    pub state: Seq<char>,
    pub entry_count: u64,
    pub complete_coverage: bool,
    pub failure_reason: Seq<char>,
    pub build_id_hex: Seq<char>,
}

impl View for IndexInfo {
    type V = IndexInfoView;

    open spec fn view(&self) -> IndexInfoView {
        IndexInfoView {
            name: self.name@,
            collection: self.collection@,
            fields: texts(self.fields@),
            state: self.state@,
            entry_count: self.entry_count,
            complete_coverage: self.complete_coverage,
            failure_reason: self.failure_reason@,
            build_id_hex: self.build_id_hex@,
        }
    }
}

/// A text, or another in its place.
pub open spec fn text_or(t: Option<Seq<char>>, other: Seq<char>) -> Seq<char> {
    match t {
        Some(s) => s,
        None => other,
    }
}

fn text_or_else(t: Option<&str>, other: &str) -> (r: String)
    ensures
        r@ == text_or(
            match t {
                Some(s) => Some(s@),
                None => None,
            },
            other@,
        ),
{
    match t {
        Some(s) => s.to_string(),
        None => other.to_string(),
    }
}

/// The strings in an array; anything else in it is left out.
pub open spec fn strings_in(items: Seq<JsonView>) -> Seq<Seq<char>>
    decreases items.len(),
{
    if items.len() == 0 {
        Seq::empty()
    } else {
        match items.last() {
            JsonView::Text(s) => strings_in(items.drop_last()).push(s),
            _ => strings_in(items.drop_last()),
        }
    }
}

fn read_strings(items: &Vec<Json>) -> (r: Vec<String>)
    ensures
        texts(r@) == strings_in(models(items@)),
{
    let ghost all = models(items@);
    let mut out: Vec<String> = Vec::new();
    proof {
        assert(all.take(0) =~= Seq::empty());
        assert(texts(out@) =~= Seq::empty());
    }
    for i in 0..items.len()
        invariant
            all == models(items@),
            texts(out@) == strings_in(all.take(i as int)),
    {
        let ghost before = texts(out@);
        proof {
            assert(all.take(i + 1).drop_last() =~= all.take(i as int));
            assert(all.take(i + 1).last() == items@[i as int]@);
        }
        if let Json::Text(s) = &items[i] {
            out.push(s.clone());
            proof {
                assert(texts(out@) =~= before.push(s@));
            }
        }
    }
    proof {
        assert(all.take(all.len() as int) =~= all);
    }
    out
}

/// The state that index metadata names.
pub open spec fn index_state(row: JsonView) -> Seq<char> {
    text_or(text_member(row, "state"@), "ready"@)
}

/// The index that metadata of a server describes. `known` says whether the
/// store knows the state it names.
pub open spec fn remote_index(row: JsonView, display: Seq<char>, known: bool) -> Result<
    IndexInfoView,
    ErrorView,
> {
    match text_member(row, "name"@) {
        None => Err(protocol_refusal("index metadata missing name"@)),
        Some(name) => if !known {
            Err(protocol_refusal("unknown index state from remote: "@ + index_state(row)))
        } else {
            Ok(
                IndexInfoView {
                    name,
                    collection: text_or(text_member(row, "collection"@), display),
                    fields: match array_member(row, "fields"@) {
                        Some(items) => strings_in(items),
                        None => Seq::empty(),
                    },
                    state: index_state(row),
                    entry_count: match u64_member(row, "entry_count"@) {
                        Some(n) => n,
                        None => 0,
                    },
                    complete_coverage: bool_member(row, "complete_coverage"@) == Some(true),
                    failure_reason: text_or(text_member(row, "failure_reason"@), ""@),
                    build_id_hex: text_or(text_member(row, "build_id_hex"@), ""@),
                },
            )
        },
    }
}

/// The name of the state that index metadata gives, for the store to tell
/// whether it knows it.
pub fn remote_index_state(row: &Json) -> (r: String)
    ensures
        r@ == index_state(row@),
{
    text_or_else(get_text(row, "state"), "ready")
}

/// Reads index metadata of a server.
pub fn index_info_from_remote_json(row: &Json, display_collection: &str, known: bool) -> (r: Result<
    IndexInfo,
    Error,
>)
    ensures
        outcome(r) == remote_index(row@, display_collection@, known),
{
    let name = match get_text(row, "name") {
        Some(n) => n.to_string(),
        None => {
            return Err(protocol_error("index metadata missing name"));
        },
    };
    let fields: Vec<String> = match get_array(row, "fields") {
        Some(items) => read_strings(items),
        None => Vec::new(),
    };
    proof {
        if array_member(row@, "fields"@) is None {
            assert(texts(fields@) =~= Seq::empty());
        }
    }
    let state = remote_index_state(row);
    if !known {
        return Err(
            Error::ProtocolViolation(cat2("unknown index state from remote: ", state.as_str())),
        );
    }
    let entry_count = match get_u64(row, "entry_count") {
        Some(n) => n,
        None => 0,
    };
    let complete_coverage = match get_bool(row, "complete_coverage") {
        Some(b) => b,
        None => false,
    };
    Ok(
        IndexInfo {
            name,
            collection: text_or_else(get_text(row, "collection"), display_collection),
            fields,
            state,
            entry_count,
            complete_coverage,
            failure_reason: text_or_else(get_text(row, "failure_reason"), ""),
            build_id_hex: text_or_else(get_text(row, "build_id_hex"), ""),
        },
    )
}

/// One version in the history of a key.
#[derive(Debug)]
pub struct Version {
    /// `put` or `delete`.
    pub kind: &'static str,
    /// Event id.
    pub event_id: String,
    /// Item id.
    pub item_id: String,
    /// Segment id.
    pub segment_id: String,
    /// The document, where the version has one.
    pub json: Option<Json>,
    /// Whether something before it is known to be missing.
    pub known_gap_before: bool,
}

/// Model of a [`Version`].
#[verifier::ext_equal]
pub struct VersionView {
    pub kind: Seq<char>,
    pub event_id: Seq<char>,
    pub item_id: Seq<char>,
    pub segment_id: Seq<char>,
    pub json: Option<JsonView>,
    pub known_gap_before: bool,
}

impl View for Version {
    type V = VersionView;

    open spec fn view(&self) -> VersionView {
        VersionView {
            kind: self.kind@,
            event_id: self.event_id@,
            item_id: self.item_id@,
            segment_id: self.segment_id@,
            json: match self.json {
                Some(j) => Some(j@),
                None => None,
            },
            known_gap_before: self.known_gap_before,
        }
    }
}

/// The version that a row of a server's history describes.
pub open spec fn remote_version(row: JsonView) -> Result<VersionView, ErrorView> {
    match text_member(row, "kind"@) {
        None => Err(protocol_refusal("history version missing kind"@)),
        Some(kind) => if kind != "put"@ && kind != "delete"@ {
            Err(protocol_refusal("unknown history kind from remote: "@ + kind))
        } else {
            Ok(
                VersionView {
                    kind,
                    event_id: text_or(text_member(row, "event_id"@), ""@),
                    item_id: text_or(text_member(row, "item_id"@), ""@),
                    segment_id: text_or(text_member(row, "segment_id"@), ""@),
                    json: match member_in(row, "json"@) {
                        Some(JsonView::Null) => None,
                        other => other,
                    },
                    known_gap_before: bool_member(row, "known_gap_before"@) == Some(true),
                },
            )
        },
    }
}

/// Reads a row of a server's history.
pub fn version_from_remote_json(row: &Json) -> (r: Result<Version, Error>)
    ensures
        outcome(r) == remote_version(row@),
{
    let kind_text = match get_text(row, "kind") {
        Some(k) => k,
        None => {
            return Err(protocol_error("history version missing kind"));
        },
    };
    let kind: &'static str = if same_text(kind_text, "put") {
        "put"
    } else if same_text(kind_text, "delete") {
        "delete"
    } else {
        return Err(
            Error::ProtocolViolation(cat2("unknown history kind from remote: ", kind_text)),
        );
    };
    let json = match row.get("json") {
        Some(v) => if v.is_null() {
            None
        } else {
            Some(v.clone())
        },
        None => None,
    };
    let known_gap_before = match get_bool(row, "known_gap_before") {
        Some(b) => b,
        None => false,
    };
    Ok(
        Version {
            kind,
            event_id: text_or_else(get_text(row, "event_id"), ""),
            item_id: text_or_else(get_text(row, "item_id"), ""),
            segment_id: text_or_else(get_text(row, "segment_id"), ""),
            json,
            known_gap_before,
        },
    )
}

/// The history of a key, oldest first.
#[derive(Debug)]
pub struct KeyHistory {
    /// Key.
    pub key: String,
    /// Versions.
    pub versions: Vec<Version>,
    /// Whether something is known to be missing.
    pub has_known_holes: bool,
}

/// The models of a list of versions.
pub open spec fn version_views(v: Seq<Version>) -> Seq<VersionView> {
    v.map_values(|x: Version| x@)
}

/// The versions of a server's history; the first row that does not read is the
/// error.
pub open spec fn remote_versions(rows: Seq<JsonView>) -> Result<Seq<VersionView>, ErrorView>
    decreases rows.len(),
{
    if rows.len() == 0 {
        Ok(Seq::empty())
    } else {
        match remote_versions(rows.drop_last()) {
            Err(e) => Err(e),
            Ok(list) => match remote_version(rows.last()) {
                Err(e) => Err(e),
                Ok(v) => Ok(list.push(v)),
            },
        }
    }
}

proof fn lemma_versions_refused(rows: Seq<JsonView>, n: int)
    requires
        0 <= n <= rows.len(),
        remote_versions(rows.take(n)) is Err,
    ensures
        remote_versions(rows) == remote_versions(rows.take(n)),
    decreases rows.len(),
{
    if n < rows.len() {
        assert(rows.drop_last().take(n) =~= rows.take(n));
        lemma_versions_refused(rows.drop_last(), n);
    } else {
        assert(rows.take(n) =~= rows);
    }
}

/// Reads a server's history of a key.
pub fn key_history_from_remote_versions(
    key: &str,
    versions: &Vec<Json>,
    has_known_holes: bool,
) -> (r: Result<KeyHistory, Error>)
    ensures
        match r {
            Ok(h) => h.key@ == key@ && h.has_known_holes == has_known_holes && remote_versions(
                models(versions@),
            ) == Ok::<Seq<VersionView>, ErrorView>(version_views(h.versions@)),
            Err(e) => remote_versions(models(versions@)) == Err::<Seq<VersionView>, ErrorView>(e@),
        },
{
    let ghost all = models(versions@);
    let mut out: Vec<Version> = Vec::new();
    proof {
        assert(all.take(0) =~= Seq::empty());
        assert(version_views(out@) =~= Seq::empty());
    }
    for i in 0..versions.len()
        invariant
            all == models(versions@),
            remote_versions(all.take(i as int)) == Ok::<Seq<VersionView>, ErrorView>(
                version_views(out@),
            ),
    {
        let ghost before = version_views(out@);
        proof {
            assert(all.take(i + 1).drop_last() =~= all.take(i as int));
            assert(all.take(i + 1).last() == versions@[i as int]@);
        }
        match version_from_remote_json(&versions[i]) {
            Ok(v) => {
                out.push(v);
                proof {
                    assert(version_views(out@) =~= before.push(v@));
                }
            },
            Err(e) => {
                proof {
                    lemma_versions_refused(all, i + 1);
                }
                return Err(e);
            },
        }
    }
    proof {
        assert(all.take(all.len() as int) =~= all);
    }
    Ok(KeyHistory { key: key.to_string(), versions: out, has_known_holes })
}

} // verus!
