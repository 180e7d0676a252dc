//! Query dialects: surface notations compiled for execution.
//!
//! `sql`, `json` and `mongo` compile to the portable filter vocabulary that
//! the Query VM executes. `sda` passes raw SDA text through once it has been
//! parsed. `rql` and `graphql` are reserved ids that refuse. Hosts may register
//! more dialects with a [`DialectRegistry`]; those compile to portable filters
//! only.
pub mod portable;
pub mod rql;
pub mod sql;

use crate::covered_reads::queue_of;
use crate::dialects::portable::{
    CompiledDialect, CompiledDialectView, CompiledPortable, CompiledPortableView,
};
use crate::dialects::sql::{compile_sql, sql_compiled};
use crate::error::{outcome, query_invalid, Error, ErrorView};
use crate::filter::{filter_in, filter_lowered, Filter};
use crate::json::{Json, JsonView};
use crate::json_text::{json_read, read_json};
use crate::text::{
    cat2, cat3, cat4, compare_text, debug_quoted, debug_text, join, joined,
    lemma_text_order_chain, lemma_text_order_flip, lowercase, lowered, same_text, text_order, texts, trim, trimmed, Order,
};
use std::sync::Arc;
use vstd::prelude::*;

verus! {

/// Profile tag for the dialect compilation surface.
pub const DIALECT_PROFILE: &'static str = "residiuum-query-dialects-v0.1";

/// Shape of compiled SDA text.
#[derive(Debug, Clone, Copy, PartialEq, Eq, Structural)]
pub enum SdaShape {
    /// Boolean expression over a single document bound as `input`.
    DocumentPredicate,
    /// Full program; what `input` is bound to is up to the host.
    Program,
}

/// Result of compiling dialect source into SDA text.
#[derive(Debug, PartialEq, Eq)]
pub struct CompiledSda {
    /// Dialect id that produced this compilation.
    pub dialect: String,
    /// SDA source text.
    pub sda: String,
    /// Whether `sda` is a document predicate or a full program.
    pub shape: SdaShape,
    /// Non-fatal mapping notes.
    pub notes: Vec<String>,
}

/// Model of a [`CompiledSda`].
#[verifier::ext_equal]
pub struct CompiledSdaView {
    pub dialect: Seq<char>,
    pub sda: Seq<char>,
    pub shape: SdaShape,
    pub notes: Seq<Seq<char>>,
}

impl View for CompiledSda {
    type V = CompiledSdaView;

    open spec fn view(&self) -> CompiledSdaView {
        CompiledSdaView {
            dialect: self.dialect@,
            sda: self.sda@,
            shape: self.shape,
            notes: texts(self.notes@),
        }
    }
}

impl CompiledSda {
    /// A document-predicate compilation.
    pub fn predicate(dialect: &str, sda: &str, notes: Vec<String>) -> (r: CompiledSda)
        ensures
            r@ == (CompiledSdaView {
                dialect: dialect@,
                sda: sda@,
                shape: SdaShape::DocumentPredicate,
                notes: texts(notes@),
            }),
    {
        CompiledSda {
            dialect: dialect.to_string(),
            sda: sda.to_string(),
            shape: SdaShape::DocumentPredicate,
            notes,
        }
    }

    /// A full-program compilation.
    pub fn program(dialect: &str, sda: &str, notes: Vec<String>) -> (r: CompiledSda)
        ensures
            r@ == (CompiledSdaView {
                dialect: dialect@,
                sda: sda@,
                shape: SdaShape::Program,
                notes: texts(notes@),
            }),
    {
        CompiledSda {
            dialect: dialect.to_string(),
            sda: sda.to_string(),
            shape: SdaShape::Program,
            notes,
        }
    }
}

/// A frontend that compiles foreign notation into a portable filter.
///
/// An implementation refuses what it cannot map. Raw SDA is not available
/// through this trait.
///
/// What an implementation shows and gives is stated by its spec functions. Their
/// default bodies speak for no implementation: a registry that holds a dialect
/// behind the trait knows only that its methods keep to them.
pub trait QueryDialect: Send + Sync {
    /// The stable id.
    open spec fn id_text(&self) -> Seq<char> {
        Seq::empty()
    }

    /// The human-readable name.
    open spec fn name_text(&self) -> Seq<char> {
        Seq::empty()
    }

    /// The description.
    open spec fn description_text(&self) -> Seq<char> {
        Seq::empty()
    }

    /// Whether the dialect may give `out` for `source`. Two compilations of one
    /// source may differ.
    open spec fn may_give(
        &self,
        source: Seq<char>,
        parse: SdaParse,
        out: Result<CompiledPortableView, ErrorView>,
    ) -> bool {
        true
    }

    /// Stable dialect id.
    fn id(&self) -> (r: &str)
        ensures
            r@ == self.id_text(),
    ;

    /// Human-readable name.
    fn name(&self) -> (r: &str)
        ensures
            r@ == self.name_text(),
    ;

    /// One-line description of coverage and limits.
    fn description(&self) -> (r: &str)
        ensures
            r@ == self.description_text(),
    ;

    /// Compiles `source` into a portable filter. `parse` is what the SDA parser
    /// said of the program that [`program_to_parse`] gives.
    fn compile(&self, source: &str, parse: &SdaParse) -> (r: Result<CompiledPortable, Error>)
        ensures
            self.may_give(source@, *parse, outcome(r)),
    ;
}

/// Metadata of a builtin dialect.
#[derive(Debug, Clone, Copy, PartialEq, Eq)]
pub struct DialectInfo {
    /// Stable id.
    pub id: &'static str,
    /// Display name.
    pub name: &'static str,
    /// Coverage summary.
    pub description: &'static str,
    /// Whether compilation is implemented for a useful subset.
    pub implemented: bool,
}

/// Builtin dialects.
#[derive(Debug, Clone, Copy, PartialEq, Eq, Hash, Structural)]
pub enum BuiltinDialect {
    /// SDA source, passed through once parsed.
    Sda,
    /// Reserved id; refuses on this surface.
    Rql,
    /// JSON filter object.
    Json,
    /// Alias of [`Self::Json`].
    Mongo,
    /// Small SQL `SELECT` / `WHERE` surface.
    Sql,
    /// Reserved id; refuses.
    Graphql,
}

/// What the SDA parser said of a program.
#[derive(Debug, PartialEq, Eq)]
pub enum SdaParse {
    /// It parses.
    Accepted,
    /// It does not; the parser's message.
    Refused(String),
}

/// The builtin dialect of an id, in any case and with white space around it.
pub open spec fn dialect_of(id: Seq<char>) -> Option<BuiltinDialect> {
    let key = lowered(trimmed(id));
    if key == "sda"@ {
        Some(BuiltinDialect::Sda)
    } else if key == "rql"@ {
        Some(BuiltinDialect::Rql)
    } else if key == "json"@ || key == "json-filter"@ || key == "filter"@ {
        Some(BuiltinDialect::Json)
    } else if key == "mongo"@ || key == "mongodb"@ {
        Some(BuiltinDialect::Mongo)
    } else if key == "sql"@ {
        Some(BuiltinDialect::Sql)
    } else if key == "graphql"@ || key == "gql"@ {
        Some(BuiltinDialect::Graphql)
    } else {
        None
    }
}

/// What SDA source compiles to, given what the parser said of the trimmed
/// source.
pub open spec fn sda_compiled(source: Seq<char>, parse: SdaParse) -> Result<
    CompiledSdaView,
    ErrorView,
> {
    if trimmed(source).len() == 0 {
        Err(ErrorView::QueryInvalid("dialect 'sda': empty program"@))
    } else {
        match parse {
            SdaParse::Refused(m) => Err(
                ErrorView::QueryInvalid("dialect 'sda' parse failed: "@ + m@),
            ),
            SdaParse::Accepted => Ok(
                CompiledSdaView {
                    dialect: "sda"@,
                    sda: trimmed(source),
                    shape: SdaShape::Program,
                    notes: Seq::empty(),
                },
            ),
        }
    }
}

/// What a JSON value compiles to as a filter: it must be one, and lower to a
/// predicate.
pub open spec fn value_compiled(dialect: Seq<char>, value: JsonView, note: Seq<char>) -> Result<
    CompiledPortableView,
    ErrorView,
> {
    match filter_in(value) {
        Err(e) => Err(e),
        Ok(f) => match filter_lowered(f) {
            Err(e) => Err(e),
            Ok(_) => Ok(
                CompiledPortableView { dialect, filter: f, project: None, notes: seq![note] },
            ),
        },
    }
}

/// What JSON text compiles to as a filter.
pub open spec fn json_compiled(dialect: Seq<char>, source: Seq<char>) -> Result<
    CompiledPortableView,
    ErrorView,
> {
    let text = trimmed(source);
    if text.len() == 0 {
        Err(ErrorView::QueryInvalid("dialect '"@ + dialect + "': empty filter"@))
    } else {
        match json_read(vstd::utf8::encode_utf8(text)) {
            Err(m) => Err(
                ErrorView::QueryInvalid(
                    "dialect '"@ + dialect + "': filter must be a JSON object: "@ + m,
                ),
            ),
            Ok(value) => value_compiled(
                dialect,
                value,
                "RQL-DQ1: compiles to portable Filter → Query VM (not SDA)"@,
            ),
        }
    }
}

/// A portable outcome as an outcome of a dialect.
pub open spec fn as_portable(r: Result<CompiledPortableView, ErrorView>) -> Result<
    CompiledDialectView,
    ErrorView,
> {
    match r {
        Ok(p) => Ok(CompiledDialectView::Portable(p)),
        Err(e) => Err(e),
    }
}

/// Why official RQL does not compile here.
pub const RQL_REFUSAL: &'static str =
    "dialect 'rql' no longer compiles to SDA (RQL-R1): the parallel RQL→SDA executor is retired. Use CollectionClient::rql / execute_rql_full (Query VM / QVM1), or pure SDA via dialect 'sda' / Collection::sda. See doc/todo/rql/RQL_WHAT_IS_LEFT.md";

/// Why GraphQL does not compile here.
pub const GRAPHQL_REFUSAL: &'static str =
    "dialect 'graphql' is reserved but not implemented; use pure SDA (dialect 'sda'), json/mongo filter, or sql mimicry (see doc/SDA/DIALECTS.md). Official RQL uses CollectionClient::rql.";

/// Why raw SDA is refused by [`QueryDialect::compile`].
pub const RAW_SDA_REFUSAL: &'static str =
    "raw SDA is not available through QueryDialect; use dialect id `sda` / compile_sda_source";

impl BuiltinDialect {
    /// Canonical id.
    pub open spec fn id_view(self) -> Seq<char> {
        match self {
            BuiltinDialect::Sda => "sda"@,
            BuiltinDialect::Rql => "rql"@,
            BuiltinDialect::Json => "json"@,
            BuiltinDialect::Mongo => "mongo"@,
            BuiltinDialect::Sql => "sql"@,
            BuiltinDialect::Graphql => "graphql"@,
        }
    }

    /// Human name.
    pub open spec fn name_view(self) -> Seq<char> {
        match self {
            BuiltinDialect::Sda => "Pure SDA"@,
            BuiltinDialect::Rql => "Residiuum Query Language"@,
            BuiltinDialect::Json => "JSON filter"@,
            BuiltinDialect::Mongo => "Mongo-style filter"@,
            BuiltinDialect::Sql => "SQL mimicry"@,
            BuiltinDialect::Graphql => "GraphQL (scaffold)"@,
        }
    }

    /// Coverage blurb.
    pub open spec fn description_view(self) -> Seq<char> {
        match self {
            BuiltinDialect::Sda => "Mathematical SDA/ENR1 source; parse-checked identity"@,
            BuiltinDialect::Rql =>
                "Retired from dialect→SDA; use CollectionClient::rql / execute_rql_full (Query VM)"@,
            BuiltinDialect::Json => "DX portable filter object; complete for §7.1 vocabulary"@,
            BuiltinDialect::Mongo => "Alias of json (Mongo-style $ops object filter)"@,
            BuiltinDialect::Sql =>
                "Partial SELECT/WHERE → portable Filter → Query VM; not full SQL"@,
            BuiltinDialect::Graphql => "Id reserved; not implemented"@,
        }
    }

    /// What `source` compiles to.
    pub open spec fn compiled(self, source: Seq<char>, parse: SdaParse) -> Result<
        CompiledDialectView,
        ErrorView,
    > {
        match self {
            BuiltinDialect::Sda => match sda_compiled(source, parse) {
                Ok(s) => Ok(CompiledDialectView::Sda(s)),
                Err(e) => Err(e),
            },
            BuiltinDialect::Rql => Err(ErrorView::QueryInvalid(RQL_REFUSAL@)),
            BuiltinDialect::Json => as_portable(json_compiled("json"@, source)),
            BuiltinDialect::Mongo => as_portable(json_compiled("mongo"@, source)),
            BuiltinDialect::Sql => as_portable(sql_compiled(source)),
            BuiltinDialect::Graphql => Err(ErrorView::QueryInvalid(GRAPHQL_REFUSAL@)),
        }
    }

    /// The dialect of an id; `None` where there is none.
    pub fn from_id(id: &str) -> (r: Option<BuiltinDialect>)
        ensures
            r == dialect_of(id@),
    {
        let low = lowercase(trim(id).as_str());
        let key = low.as_str();
        if same_text(key, "sda") {
            Some(BuiltinDialect::Sda)
        } else if same_text(key, "rql") {
            Some(BuiltinDialect::Rql)
        } else if same_text(key, "json") || same_text(key, "json-filter") || same_text(
            key,
            "filter",
        ) {
            Some(BuiltinDialect::Json)
        } else if same_text(key, "mongo") || same_text(key, "mongodb") {
            Some(BuiltinDialect::Mongo)
        } else if same_text(key, "sql") {
            Some(BuiltinDialect::Sql)
        } else if same_text(key, "graphql") || same_text(key, "gql") {
            Some(BuiltinDialect::Graphql)
        } else {
            None
        }
    }

    /// Canonical id string.
    pub fn id(self) -> (r: &'static str)
        ensures
            r@ == self.id_view(),
    {
        match self {
            BuiltinDialect::Sda => "sda",
            BuiltinDialect::Rql => "rql",
            BuiltinDialect::Json => "json",
            BuiltinDialect::Mongo => "mongo",
            BuiltinDialect::Sql => "sql",
            BuiltinDialect::Graphql => "graphql",
        }
    }

    /// Human name.
    pub fn name(self) -> (r: &'static str)
        ensures
            r@ == self.name_view(),
    {
        match self {
            BuiltinDialect::Sda => "Pure SDA",
            BuiltinDialect::Rql => "Residiuum Query Language",
            BuiltinDialect::Json => "JSON filter",
            BuiltinDialect::Mongo => "Mongo-style filter",
            BuiltinDialect::Sql => "SQL mimicry",
            BuiltinDialect::Graphql => "GraphQL (scaffold)",
        }
    }

    /// Coverage blurb.
    pub fn description(self) -> (r: &'static str)
        ensures
            r@ == self.description_view(),
    {
        match self {
            BuiltinDialect::Sda => "Mathematical SDA/ENR1 source; parse-checked identity",
            BuiltinDialect::Rql =>
                "Retired from dialect→SDA; use CollectionClient::rql / execute_rql_full (Query VM)",
            BuiltinDialect::Json => "DX portable filter object; complete for §7.1 vocabulary",
            BuiltinDialect::Mongo => "Alias of json (Mongo-style $ops object filter)",
            BuiltinDialect::Sql =>
                "Partial SELECT/WHERE → portable Filter → Query VM; not full SQL",
            BuiltinDialect::Graphql => "Id reserved; not implemented",
        }
    }

    /// Whether a useful subset compiles.
    pub fn implemented(self) -> (r: bool)
        ensures
            r == !(self == BuiltinDialect::Graphql || self == BuiltinDialect::Rql),
    {
        !matches!(self, BuiltinDialect::Graphql | BuiltinDialect::Rql)
    }

    /// Compiles `source`. `parse` is what the SDA parser said of the text that
    /// [`program_to_parse`] gives; the other dialects do not look at it.
    pub fn compile(self, source: &str, parse: &SdaParse) -> (r: Result<CompiledDialect, Error>)
        ensures
            outcome(r) == self.compiled(source@, *parse),
    {
        match self {
            BuiltinDialect::Sda => match compile_sda_source(source, parse) {
                Ok(s) => Ok(CompiledDialect::Sda(s)),
                Err(e) => Err(e),
            },
            BuiltinDialect::Rql => Err(query_invalid(RQL_REFUSAL)),
            BuiltinDialect::Json => portable_outcome(compile_json_filter("json", source)),
            BuiltinDialect::Mongo => portable_outcome(compile_json_filter("mongo", source)),
            BuiltinDialect::Sql => portable_outcome(compile_sql(source)),
            BuiltinDialect::Graphql => Err(query_invalid(GRAPHQL_REFUSAL)),
        }
    }
}

/// A portable outcome as an outcome of a dialect.
pub fn portable_outcome(r: Result<CompiledPortable, Error>) -> (out: Result<CompiledDialect, Error>)
    ensures
        outcome(out) == as_portable(outcome(r)),
{
    match r {
        Ok(p) => Ok(CompiledDialect::Portable(p)),
        Err(e) => Err(e),
    }
}

/// The program that the SDA parser has to be asked about before `source` can
/// be compiled with the dialect `dialect_id`; `None` where no parse is needed.
pub fn program_to_parse(dialect_id: &str, source: &str) -> (r: Option<String>)
    ensures
        match r {
            Some(text) => dialect_of(dialect_id@) == Some(BuiltinDialect::Sda) && text@ == trimmed(
                source@,
            ) && text@.len() > 0,
            None => dialect_of(dialect_id@) != Some(BuiltinDialect::Sda) || trimmed(source@).len()
                == 0,
        },
{
    match BuiltinDialect::from_id(dialect_id) {
        Some(BuiltinDialect::Sda) => {
            let text = trim(source);
            if text.as_str().is_empty() {
                None
            } else {
                Some(text)
            }
        },
        _ => None,
    }
}

/// Passes SDA source through, given what the parser said of it.
pub fn compile_sda_source(source: &str, parse: &SdaParse) -> (r: Result<CompiledSda, Error>)
    ensures
        outcome(r) == sda_compiled(source@, *parse),
{
    let text = trim(source);
    if text.as_str().is_empty() {
        return Err(query_invalid("dialect 'sda': empty program"));
    }
    match parse {
        SdaParse::Refused(m) => Err(
            Error::QueryInvalid(cat2("dialect 'sda' parse failed: ", m.as_str())),
        ),
        SdaParse::Accepted => {
            let notes: Vec<String> = Vec::new();
            proof {
                assert(texts(notes@) =~= Seq::empty());
            }
            Ok(CompiledSda::program("sda", text.as_str(), notes))
        },
    }
}

fn compile_value(dialect: &str, value: &Json, note: &str) -> (r: Result<CompiledPortable, Error>)
    ensures
        outcome(r) == value_compiled(dialect@, value@, note@),
{
    let f = Filter::from_json(value)?;
    f.to_predicate()?;
    let mut notes: Vec<String> = Vec::new();
    notes.push(note.to_string());
    proof {
        assert(texts(notes@) =~= seq![note@]);
    }
    Ok(CompiledPortable::new(dialect, f, None, notes))
}

/// Compiles a `json` or `mongo` filter text.
fn compile_json_filter(dialect: &str, source: &str) -> (r: Result<CompiledPortable, Error>)
    ensures
        outcome(r) == json_compiled(dialect@, source@),
{
    let text = trim(source);
    if text.as_str().is_empty() {
        return Err(Error::QueryInvalid(cat3("dialect '", dialect, "': empty filter")));
    }
    match read_json(text.as_str().as_bytes()) {
        Err(m) => Err(
            Error::QueryInvalid(
                cat4(
                    "dialect '",
                    dialect,
                    "': filter must be a JSON object: ",
                    m.as_str(),
                ),
            ),
        ),
        Ok(value) => compile_value(
            dialect,
            &value,
            "RQL-DQ1: compiles to portable Filter → Query VM (not SDA)",
        ),
    }
}

/// Compiles a JSON value as a filter.
pub fn compile_json_value(filter: &Json) -> (r: Result<CompiledPortable, Error>)
    ensures
        outcome(r) == value_compiled(
            "json"@,
            filter@,
            "RQL-DQ1: compile_json_value → portable Filter → Query VM (not SDA)"@,
        ),
{
    compile_value(
        "json",
        filter,
        "RQL-DQ1: compile_json_value → portable Filter → Query VM (not SDA)",
    )
}

/// Model of the metadata of a dialect.
#[verifier::ext_equal]
pub struct DialectInfoView {
    pub id: Seq<char>,
    pub name: Seq<char>,
    pub description: Seq<char>,
    pub implemented: bool,
}

impl View for DialectInfo {
    type V = DialectInfoView;

    open spec fn view(&self) -> DialectInfoView {
        DialectInfoView {
            id: self.id@,
            name: self.name@,
            description: self.description@,
            implemented: self.implemented,
        }
    }
}

/// Owned dialect metadata.
#[derive(Debug, PartialEq, Eq)]
pub struct DialectInfoOwned {
    /// Stable id.
    pub id: String,
    /// Display name.
    pub name: String,
    /// Coverage summary.
    pub description: String,
    /// Whether compilation is implemented.
    pub implemented: bool,
}

impl View for DialectInfoOwned {
    type V = DialectInfoView;

    open spec fn view(&self) -> DialectInfoView {
        DialectInfoView {
            id: self.id@,
            name: self.name@,
            description: self.description@,
            implemented: self.implemented,
        }
    }
}

impl DialectInfoOwned {
    fn from_static(info: &DialectInfo) -> (r: DialectInfoOwned)
        ensures
            r@ == info@,
    {
        DialectInfoOwned {
            id: info.id.to_string(),
            name: info.name.to_string(),
            description: info.description.to_string(),
            implemented: info.implemented,
        }
    }
}

/// The models of a list of owned metadata.
pub open spec fn owned_infos(v: Seq<DialectInfoOwned>) -> Seq<DialectInfoView> {
    v.map_values(|d: DialectInfoOwned| d@)
}

/// The ids of a list of metadata.
pub open spec fn ids_of(v: Seq<DialectInfoView>) -> Seq<Seq<char>> {
    v.map_values(|d: DialectInfoView| d.id)
}

/// Metadata of every builtin dialect.
pub open spec fn builtin_infos() -> Seq<DialectInfoView> {
    seq![
        DialectInfoView {
            id: "sda"@,
            name: "Pure SDA"@,
            description: "Mathematical SDA/ENR1 source; parse-checked identity"@,
            implemented: true,
        },
        DialectInfoView {
            id: "rql"@,
            name: "Residiuum Query Language (retired on dialect→SDA)"@,
            description: "Refuse here; use CollectionClient::rql / execute_rql_full (Query VM)"@,
            implemented: false,
        },
        DialectInfoView {
            id: "json"@,
            name: "JSON filter"@,
            description: "DX portable filter object; complete for §7.1 vocabulary"@,
            implemented: true,
        },
        DialectInfoView {
            id: "mongo"@,
            name: "Mongo-style filter"@,
            description: "Alias of json (Mongo-style $ops object filter)"@,
            implemented: true,
        },
        DialectInfoView {
            id: "sql"@,
            name: "SQL mimicry"@,
            description: "Partial SELECT/WHERE → portable Filter → Query VM; not full SQL"@,
            implemented: true,
        },
        DialectInfoView {
            id: "graphql"@,
            name: "GraphQL (scaffold)"@,
            description: "Id reserved; not implemented"@,
            implemented: false,
        },
    ]
}

/// Metadata of every builtin dialect, reserved ids too.
pub fn list_builtin_dialects() -> (r: Vec<DialectInfo>)
    ensures
        r@.map_values(|d: DialectInfo| d@) == builtin_infos(),
{
    let mut out: Vec<DialectInfo> = Vec::new();
    out.push(
        DialectInfo {
            id: "sda",
            name: "Pure SDA",
            description: "Mathematical SDA/ENR1 source; parse-checked identity",
            implemented: true,
        },
    );
    out.push(
        DialectInfo {
            id: "rql",
            name: "Residiuum Query Language (retired on dialect→SDA)",
            description: "Refuse here; use CollectionClient::rql / execute_rql_full (Query VM)",
            implemented: false,
        },
    );
    out.push(
        DialectInfo {
            id: "json",
            name: "JSON filter",
            description: "DX portable filter object; complete for §7.1 vocabulary",
            implemented: true,
        },
    );
    out.push(
        DialectInfo {
            id: "mongo",
            name: "Mongo-style filter",
            description: "Alias of json (Mongo-style $ops object filter)",
            implemented: true,
        },
    );
    out.push(
        DialectInfo {
            id: "sql",
            name: "SQL mimicry",
            description: "Partial SELECT/WHERE → portable Filter → Query VM; not full SQL",
            implemented: true,
        },
    );
    out.push(
        DialectInfo {
            id: "graphql",
            name: "GraphQL (scaffold)",
            description: "Id reserved; not implemented",
            implemented: false,
        },
    );
    proof {
        assert(out@.map_values(|d: DialectInfo| d@) =~= builtin_infos());
    }
    out
}

/// `info` placed into a list ordered by id, behind entries that do not sort
/// after it.
pub open spec fn placed(list: Seq<DialectInfoView>, info: DialectInfoView) -> Seq<DialectInfoView>
    decreases list.len(),
{
    if list.len() > 0 && text_order(list.last().id, info.id) == Order::Greater {
        placed(list.drop_last(), info).push(list.last())
    } else {
        list.push(info)
    }
}

/// A list of metadata ordered by id.
pub open spec fn ordered(list: Seq<DialectInfoView>) -> Seq<DialectInfoView>
    decreases list.len(),
{
    if list.len() == 0 {
        list
    } else {
        placed(ordered(list.drop_last()), list.last())
    }
}

/// Places `info` into a list ordered by id.
fn place(list: &mut Vec<DialectInfoOwned>, info: DialectInfoOwned)
    ensures
        owned_infos(final(list)@) == placed(owned_infos(old(list)@), info@),
{
    let ghost all = owned_infos(list@);
    let mut k: usize = list.len();
    proof {
        assert(all.take(all.len() as int) =~= all);
        assert(placed(all, info@) =~= placed(all.take(k as int), info@) + all.skip(k as int));
    }
    while k > 0 && compare_text(list[k - 1].id.as_str(), info.id.as_str()) == Order::Greater
        invariant
            k <= list@.len(),
            list@ == old(list)@,
            all == owned_infos(list@),
            placed(all, info@) == placed(all.take(k as int), info@) + all.skip(k as int),
        decreases k,
    {
        proof {
            let head = all.take(k as int);
            assert(head.drop_last() =~= all.take(k - 1));
            assert(head.last() == list@[k - 1]@);
            assert(placed(all.take(k - 1), info@).push(head.last()) + all.skip(k as int)
                =~= placed(all.take(k - 1), info@) + all.skip(k - 1));
        }
        k = k - 1;
    }
    proof {
        let head = all.take(k as int);
        if k > 0 {
            assert(head.last() == list@[k - 1]@);
        }
        assert(head.push(info@) + all.skip(k as int) =~= owned_infos(list@.insert(k as int, info)));
    }
    list.insert(k, info);
}

/// The refusal of an id that is not among the known dialects.
fn refuse_unknown(known: Vec<DialectInfoOwned>, dialect_id: &str) -> (r: Error)
    ensures
        r@ == ErrorView::QueryInvalid(
            "unknown query dialect "@ + debug_quoted(dialect_id@) + "; known: "@ + joined(
                ids_of(owned_infos(known@)),
                ", "@,
            ),
        ),
{
    let mut ids: Vec<String> = Vec::new();
    let ghost all = ids_of(owned_infos(known@));
    for i in 0..known.len()
        invariant
            all == ids_of(owned_infos(known@)),
            texts(ids@) =~= all.take(i as int),
    {
        let ghost before = texts(ids@);
        ids.push(known[i].id.clone());
        proof {
            assert(texts(ids@) =~= before.push(known@[i as int].id@));
            assert(owned_infos(known@)[i as int] == known@[i as int]@);
            assert(all.take(i + 1) =~= before.push(all[i as int]));
        }
    }
    proof {
        assert(all.take(all.len() as int) =~= all);
    }
    Error::QueryInvalid(
        cat4(
            "unknown query dialect ",
            debug_text(dialect_id).as_str(),
            "; known: ",
            join(&ids, ", ").as_str(),
        ),
    )
}

/// Registry of builtin and caller-registered dialects.
pub struct DialectRegistry {
    custom: Vec<(String, Arc<dyn QueryDialect>)>,
}

/// What the registry lists of a dialect registered under an id.
pub open spec fn custom_info(id: Seq<char>, name: Seq<char>, description: Seq<char>) -> DialectInfoView {
    DialectInfoView { id, name, description, implemented: true }
}

/// The id that a registration or a compilation is keyed by.
pub open spec fn dialect_key(id: Seq<char>) -> Seq<char> {
    lowered(trimmed(id))
}

/// Why a dialect cannot be registered under `key`, where it cannot. `ids` are
/// those that are registered.
pub open spec fn registration_refused(ids: Seq<Seq<char>>, key: Seq<char>) -> Option<ErrorView> {
    if key.len() == 0 {
        Some(ErrorView::QueryInvalid("dialect id must be non-empty"@))
    } else if dialect_of(key) is Some {
        Some(
            ErrorView::QueryInvalid(
                "cannot register dialect "@ + debug_quoted(key)
                    + ": id is reserved for a builtin"@,
            ),
        )
    } else if ids.contains(key) {
        Some(
            ErrorView::QueryInvalid(
                "dialect "@ + debug_quoted(key) + " is already registered"@,
            ),
        )
    } else {
        None
    }
}

/// What registering under an id gives: the ids that are registered then, and
/// the refusal, where there is one.
pub open spec fn registered(ids: Seq<Seq<char>>, id: Seq<char>) -> (Seq<Seq<char>>, Option<
    ErrorView,
>) {
    let key = dialect_key(id);
    match registration_refused(ids, key) {
        None => (ids.push(key), None),
        Some(e) => (ids, Some(e)),
    }
}

/// Metadata of dialects of which no more than the ids are known.
pub open spec fn unnamed(ids: Seq<Seq<char>>) -> Seq<DialectInfoView> {
    ids.map_values(|id: Seq<char>| custom_info(id, Seq::empty(), Seq::empty()))
}

/// The refusal of an id that is neither builtin nor registered.
pub open spec fn unknown_dialect(ids: Seq<Seq<char>>, id: Seq<char>) -> ErrorView {
    ErrorView::QueryInvalid(
        "unknown query dialect "@ + debug_quoted(id) + "; known: "@ + joined(
            ids_of(ordered(builtin_infos() + unnamed(ids))),
            ", "@,
        ),
    )
}

/// Metadata in a list of its own.
fn own_infos(list: &Vec<DialectInfo>) -> (r: Vec<DialectInfoOwned>)
    ensures
        owned_infos(r@) == list@.map_values(|d: DialectInfo| d@),
{
    let ghost all = list@.map_values(|d: DialectInfo| d@);
    let mut out: Vec<DialectInfoOwned> = Vec::new();
    for i in 0..list.len()
        invariant
            all == list@.map_values(|d: DialectInfo| d@),
            owned_infos(out@) =~= all.take(i as int),
    {
        let ghost before = owned_infos(out@);
        let info = DialectInfoOwned::from_static(&list[i]);
        let ghost shown = info@;
        out.push(info);
        proof {
            assert(shown == all[i as int]);
            assert(owned_infos(out@) =~= before.push(shown));
            assert(all.take(i + 1) =~= before.push(shown));
        }
    }
    proof {
        assert(all.take(all.len() as int) =~= all);
    }
    out
}

/// Puts metadata in order, by ascending id.
fn order_infos(list: Vec<DialectInfoOwned>) -> (r: Vec<DialectInfoOwned>)
    ensures
        owned_infos(r@) == ordered(owned_infos(list@)),
{
    let ghost items = list@;
    let ghost all = owned_infos(items);
    let mut rest = queue_of(list);
    let mut out: Vec<DialectInfoOwned> = Vec::new();
    let ghost mut i: int = 0;
    proof {
        assert(items.skip(0) =~= items);
        assert(owned_infos(out@) =~= ordered(all.take(0)));
    }
    while rest.len() > 0
        invariant
            0 <= i <= items.len(),
            rest@ =~= items.skip(i),
            all == owned_infos(items),
            owned_infos(out@) == ordered(all.take(i)),
        decreases rest@.len(),
    {
        let ghost left = rest@;
        if let Some(info) = rest.pop_front() {
            proof {
                assert(left[0] == items[i]);
                assert(all.take(i + 1).drop_last() =~= all.take(i));
                assert(all.take(i + 1).last() == info@);
            }
            place(&mut out, info);
            proof {
                i = i + 1;
            }
        }
    }
    proof {
        assert(all.take(all.len() as int) =~= all);
    }
    out
}

/// Metadata of the builtin dialects and of `custom`, by ascending id.
pub fn list_with(custom: Vec<DialectInfoOwned>) -> (r: Vec<DialectInfoOwned>)
    ensures
        owned_infos(r@) == ordered(builtin_infos() + owned_infos(custom@)),
{
    let mut all = own_infos(&list_builtin_dialects());
    let ghost builtin = owned_infos(all@);
    let mut added = custom;
    all.append(&mut added);
    proof {
        assert(owned_infos(all@) =~= builtin + owned_infos(custom@));
    }
    order_infos(all)
}

impl View for DialectRegistry {
    type V = Seq<Seq<char>>;

    closed spec fn view(&self) -> Seq<Seq<char>> {
        Seq::new(self.custom@.len(), |i: int| self.custom@[i].0@)
    }
}

impl DialectRegistry {
    /// What the registry tells of the registered dialects, in the order they
    /// were registered.
    pub closed spec fn described(&self) -> Seq<DialectInfoView> {
        Seq::new(
            self.custom@.len(),
            |i: int|
                custom_info(
                    self.custom@[i].0@,
                    self.custom@[i].1.name_text(),
                    self.custom@[i].1.description_text(),
                ),
        )
    }

    /// Whether the dialect that is registered under `key` may give `out`.
    pub closed spec fn may_compile(
        &self,
        key: Seq<char>,
        source: Seq<char>,
        parse: SdaParse,
        out: Result<CompiledPortableView, ErrorView>,
    ) -> bool {
        exists|i: int|
            0 <= i < self.custom@.len() && (#[trigger] self.custom@[i]).0@ == key
                && self.custom@[i].1.may_give(source, parse, out)
    }

    /// A registry holds what another does, and a dialect that is described by
    /// `info` and gives what `gives` says.
    pub open spec fn holds_also(
        &self,
        before: DialectRegistry,
        info: DialectInfoView,
        gives: spec_fn(Seq<char>, SdaParse, Result<CompiledPortableView, ErrorView>) -> bool,
    ) -> bool {
        &&& self.described() == before.described().push(info)
        &&& forall|source: Seq<char>, parse: SdaParse, out: Result<CompiledPortableView, ErrorView>|
            #[trigger] self.may_compile(info.id, source, parse, out) == gives(source, parse, out)
        &&& forall|
            other: Seq<char>,
            source: Seq<char>,
            parse: SdaParse,
            out: Result<CompiledPortableView, ErrorView>,
        |
            other != info.id ==> #[trigger] self.may_compile(other, source, parse, out)
                == before.may_compile(other, source, parse, out)
    }

    /// No id is empty, builtin, or registered twice.
    #[verifier::type_invariant]
    spec fn inv(self) -> bool {
        &&& forall|i: int|
            0 <= i < self.custom@.len() ==> (#[trigger] self.custom@[i]).0@.len() > 0
                && dialect_of(self.custom@[i].0@) is None
        &&& forall|i: int, j: int|
            0 <= i < j < self.custom@.len() ==> (#[trigger] self.custom@[i]).0@ != (
            #[trigger] self.custom@[j]).0@
    }

    /// An empty registry; the builtin dialects are always there.
    pub fn new() -> (r: DialectRegistry)
        ensures
            r@ == Seq::<Seq<char>>::empty(),
            r.described() == Seq::<DialectInfoView>::empty(),
    {
        let r = DialectRegistry { custom: Vec::new() };
        proof {
            assert(r@ =~= Seq::<Seq<char>>::empty());
            assert(r.described() =~= Seq::<DialectInfoView>::empty());
        }
        r
    }

    /// Position of the dialect registered under `key`.
    fn position(&self, key: &str) -> (r: Option<usize>)
        ensures
            match r {
                Some(i) => i < self.custom@.len() && self@[i as int] == key@ && self@.contains(
                    key@,
                ),
                None => !self@.contains(key@),
            },
    {
        let mut i: usize = 0;
        while i < self.custom.len()
            invariant
                i <= self.custom@.len(),
                forall|k: int| 0 <= k < i ==> #[trigger] self@[k] != key@,
            decreases self.custom@.len() - i,
        {
            if same_text(self.custom[i].0.as_str(), key) {
                proof {
                    assert(self@[i as int] == key@);
                }
                return Some(i);
            }
            i = i + 1;
        }
        None
    }

    /// Registers a dialect under the id that it gives itself.
    pub fn register(&mut self, dialect: Arc<dyn QueryDialect>) -> (r: Result<(), Error>)
        ensures
            match r {
                Ok(_) => registered(old(self)@, dialect.id_text()) == (
                    final(self)@,
                    None::<ErrorView>,
                ) && final(self).holds_also(
                    *old(self),
                    custom_info(
                        dialect_key(dialect.id_text()),
                        dialect.name_text(),
                        dialect.description_text(),
                    ),
                    |source: Seq<char>, parse: SdaParse, out: Result<CompiledPortableView, ErrorView>|
                        dialect.may_give(source, parse, out),
                ),
                Err(e) => registered(old(self)@, dialect.id_text()) == (final(self)@, Some(e@))
                    && *final(self) == *old(self),
            },
    {
        let id = dialect.id().to_string();
        let named = (id, dialect);
        self.register_as(named)
    }

    /// Registers a dialect under the id that it is given with, trimmed and in
    /// small letters. Builtin ids cannot be shadowed, and no id is registered
    /// twice.
    pub fn register_as(&mut self, named: (String, Arc<dyn QueryDialect>)) -> (r: Result<(), Error>)
        ensures
            match r {
                Ok(_) => registered(old(self)@, named.0@) == (final(self)@, None::<ErrorView>)
                    && final(self).holds_also(
                    *old(self),
                    custom_info(
                        dialect_key(named.0@),
                        named.1.name_text(),
                        named.1.description_text(),
                    ),
                    |source: Seq<char>, parse: SdaParse, out: Result<CompiledPortableView, ErrorView>|
                        named.1.may_give(source, parse, out),
                ),
                Err(e) => registered(old(self)@, named.0@) == (final(self)@, Some(e@))
                    && *final(self) == *old(self),
            },
    {
        proof {
            use_type_invariant(&*self);
        }
        let id = lowercase(trim(named.0.as_str()).as_str());
        if id.as_str().is_empty() {
            return Err(query_invalid("dialect id must be non-empty"));
        }
        if BuiltinDialect::from_id(id.as_str()).is_some() {
            return Err(
                Error::QueryInvalid(
                    cat3(
                        "cannot register dialect ",
                        debug_text(id.as_str()).as_str(),
                        ": id is reserved for a builtin",
                    ),
                ),
            );
        }
        if self.position(id.as_str()).is_some() {
            return Err(
                Error::QueryInvalid(
                    cat3(
                        "dialect ",
                        debug_text(id.as_str()).as_str(),
                        " is already registered",
                    ),
                ),
            );
        }
        let ghost before = self@;
        let ghost key = id@;
        let ghost old_custom = self.custom@;
        let mut custom: Vec<(String, Arc<dyn QueryDialect>)> = Vec::new();
        std::mem::swap(&mut custom, &mut self.custom);
        let entry = (id, named.1);
        custom.push(entry);
        proof {
            assert forall|i: int| 0 <= i < old_custom.len() implies (
            #[trigger] old_custom[i]).0@ != key by {
                assert(before[i] == old_custom[i].0@);
            }
        }
        self.custom = custom;
        proof {
            assert(self@ =~= before.push(key));
            lemma_holds_also(*old(self), *self);
        }
        Ok(())
    }

    /// Compiles with a builtin or a registered dialect. What a registered one
    /// gives for the source is given as a portable compilation.
    pub fn compile(&self, dialect_id: &str, source: &str, parse: &SdaParse) -> (r: Result<
        CompiledDialect,
        Error,
    >)
        ensures
            match dialect_of(dialect_key(dialect_id@)) {
                Some(d) => outcome(r) == d.compiled(source@, *parse),
                None => if self@.contains(dialect_key(dialect_id@)) {
                    exists|out: Result<CompiledPortableView, ErrorView>| #[trigger]
                        self.may_compile(dialect_key(dialect_id@), source@, *parse, out)
                            && outcome(r) == as_portable(out)
                } else {
                    outcome(r) == Err::<CompiledDialectView, ErrorView>(
                        unknown_dialect(self@, dialect_id@),
                    )
                },
            },
    {
        let key = lowercase(trim(dialect_id).as_str());
        if let Some(d) = BuiltinDialect::from_id(key.as_str()) {
            return d.compile(source, parse);
        }
        if let Some(i) = self.position(key.as_str()) {
            let d = &self.custom[i].1;
            let out = d.compile(source, parse);
            proof {
                assert(self@[i as int] == self.custom@[i as int].0@);
                assert(self.may_compile(key@, source@, *parse, outcome(out)));
            }
            return portable_outcome(out);
        }
        let mut known: Vec<DialectInfoOwned> = Vec::new();
        for i in 0..self.custom.len()
            invariant
                owned_infos(known@) =~= unnamed(self@).take(i as int),
        {
            let ghost before = owned_infos(known@);
            let info = DialectInfoOwned {
                id: self.custom[i].0.clone(),
                name: String::new(),
                description: String::new(),
                implemented: true,
            };
            let ghost shown = info@;
            known.push(info);
            proof {
                assert(shown.name =~= Seq::empty());
                assert(shown.description =~= Seq::empty());
                assert(owned_infos(known@) =~= before.push(shown));
                assert(self@[i as int] == self.custom@[i as int].0@);
                assert(unnamed(self@).take(i + 1) =~= before.push(unnamed(self@)[i as int]));
            }
        }
        proof {
            assert(unnamed(self@).take(self@.len() as int) =~= unnamed(self@));
        }
        Err(refuse_unknown(list_with(known), dialect_id))
    }

    /// Metadata of the builtin and the registered dialects, by ascending id.
    pub fn list(&self) -> (r: Vec<DialectInfoOwned>)
        ensures
            owned_infos(r@) == ordered(builtin_infos() + self.described()),
            ids_of(self.described()) == self@,
    {
        let mut custom: Vec<DialectInfoOwned> = Vec::new();
        for i in 0..self.custom.len()
            invariant
                owned_infos(custom@) =~= self.described().take(i as int),
        {
            let d = &self.custom[i].1;
            let ghost before = owned_infos(custom@);
            let info = DialectInfoOwned {
                id: self.custom[i].0.clone(),
                name: d.name().to_string(),
                description: d.description().to_string(),
                implemented: true,
            };
            let ghost shown = info@;
            custom.push(info);
            proof {
                assert(owned_infos(custom@) =~= before.push(shown));
                assert(self.described()[i as int] == shown);
                assert(self.described().take(i + 1) =~= before.push(shown));
            }
        }
        proof {
            assert(self.described().take(self.described().len() as int) =~= self.described());
            assert(ids_of(self.described()) =~= self@);
        }
        list_with(custom)
    }
}

/// A registry whose entries are those of another and one more holds what the
/// other does, and the dialect of that entry.
proof fn lemma_holds_also(before: DialectRegistry, after: DialectRegistry)
    requires
        after.custom@.len() == before.custom@.len() + 1,
        forall|i: int| 0 <= i < before.custom@.len() ==> after.custom@[i] == before.custom@[i],
        forall|i: int|
            0 <= i < before.custom@.len() ==> (#[trigger] before.custom@[i]).0@
                != after.custom@.last().0@,
    ensures
        after.holds_also(
            before,
            custom_info(
                after.custom@.last().0@,
                after.custom@.last().1.name_text(),
                after.custom@.last().1.description_text(),
            ),
            |source: Seq<char>, parse: SdaParse, out: Result<CompiledPortableView, ErrorView>|
                after.custom@.last().1.may_give(source, parse, out),
        ),
{
    let n = before.custom@.len() as int;
    let key = after.custom@.last().0@;
    assert(after.described() =~= before.described().push(after.described()[n]));
    assert forall|source: Seq<char>, parse: SdaParse, out: Result<CompiledPortableView, ErrorView>|
        #[trigger] after.may_compile(key, source, parse, out)
        == after.custom@[n].1.may_give(source, parse, out) by {
        if after.custom@[n].1.may_give(source, parse, out) {
            assert(after.custom@[n].0@ == key);
        }
        if after.may_compile(key, source, parse, out) {
            let i = choose|i: int|
                0 <= i < after.custom@.len() && (#[trigger] after.custom@[i]).0@ == key
                    && after.custom@[i].1.may_give(source, parse, out);
            assert(i == n) by {
                if i < n {
                    assert(before.custom@[i].0@ != key);
                }
            }
        }
    }
    assert forall|
        other: Seq<char>,
        source: Seq<char>,
        parse: SdaParse,
        out: Result<CompiledPortableView, ErrorView>,
    |
        other != key implies #[trigger] after.may_compile(other, source, parse, out)
        == before.may_compile(other, source, parse, out) by {
        if before.may_compile(other, source, parse, out) {
            let i = choose|i: int|
                0 <= i < before.custom@.len() && (#[trigger] before.custom@[i]).0@ == other
                    && before.custom@[i].1.may_give(source, parse, out);
            assert(after.custom@[i].0@ == other);
        }
        if after.may_compile(other, source, parse, out) {
            let i = choose|i: int|
                0 <= i < after.custom@.len() && (#[trigger] after.custom@[i]).0@ == other
                    && after.custom@[i].1.may_give(source, parse, out);
            assert(i < n);
            assert(before.custom@[i].0@ == other);
        }
    }
}

impl Default for DialectRegistry {
    fn default() -> (r: DialectRegistry)
        ensures
            r@ == Seq::<Seq<char>>::empty(),
            r.described() == Seq::<DialectInfoView>::empty(),
    {
        DialectRegistry::new()
    }
}

/// Compiles `source` with a builtin dialect id.
pub fn compile_dialect(dialect_id: &str, source: &str, parse: &SdaParse) -> (r: Result<
    CompiledDialect,
    Error,
>)
    ensures
        outcome(r) == match dialect_of(dialect_id@) {
            Some(d) => d.compiled(source@, *parse),
            None => Err(unknown_dialect(Seq::empty(), dialect_id@)),
        },
{
    match BuiltinDialect::from_id(dialect_id) {
        Some(d) => d.compile(source, parse),
        None => {
            let none: Vec<DialectInfoOwned> = Vec::new();
            proof {
                assert(owned_infos(none@) =~= unnamed(Seq::empty()));
            }
            Err(refuse_unknown(list_with(none), dialect_id))
        },
    }
}

/// What a builtin dialect gives as a portable compilation. Raw SDA is refused,
/// once it parses.
pub open spec fn builtin_portable(d: BuiltinDialect, source: Seq<char>, parse: SdaParse) -> Result<
    CompiledPortableView,
    ErrorView,
> {
    match d.compiled(source, parse) {
        Ok(CompiledDialectView::Portable(p)) => Ok(p),
        Ok(CompiledDialectView::Sda(_)) => Err(ErrorView::QueryInvalid(RAW_SDA_REFUSAL@)),
        Err(e) => Err(e),
    }
}

impl QueryDialect for BuiltinDialect {
    open spec fn id_text(&self) -> Seq<char> {
        self.id_view()
    }

    open spec fn name_text(&self) -> Seq<char> {
        self.name_view()
    }

    open spec fn description_text(&self) -> Seq<char> {
        self.description_view()
    }

    open spec fn may_give(
        &self,
        source: Seq<char>,
        parse: SdaParse,
        out: Result<CompiledPortableView, ErrorView>,
    ) -> bool {
        out == builtin_portable(*self, source, parse)
    }

    fn id(&self) -> (r: &str) {
        BuiltinDialect::id(*self)
    }

    fn name(&self) -> (r: &str) {
        BuiltinDialect::name(*self)
    }

    fn description(&self) -> (r: &str) {
        BuiltinDialect::description(*self)
    }

    fn compile(&self, source: &str, parse: &SdaParse) -> (r: Result<CompiledPortable, Error>) {
        match BuiltinDialect::compile(*self, source, parse) {
            Ok(CompiledDialect::Portable(p)) => Ok(p),
            Ok(CompiledDialect::Sda(_)) => Err(query_invalid(RAW_SDA_REFUSAL)),
            Err(e) => Err(e),
        }
    }
}

/// Every builtin dialect is found by its own id.
pub proof fn law_builtin_id_round_trip(d: BuiltinDialect)
    ensures
        dialect_of(d.id_view()) == Some(d),
{
    reveal_strlit("sda");
    reveal_strlit("rql");
    reveal_strlit("json");
    reveal_strlit("json-filter");
    reveal_strlit("filter");
    reveal_strlit("mongo");
    reveal_strlit("mongodb");
    reveal_strlit("sql");
    reveal_strlit("graphql");
    reveal_strlit("gql");
    let id = d.id_view();
    assert(trimmed(id) == id);
    assert(lowered(id) =~= id);
    assert("sda"@[0] == 's' && "sql"@[0] == 's' && "sda"@[1] == 'd' && "sql"@[1] == 'q');
    assert("rql"@[0] == 'r' && "gql"@[0] == 'g');
    assert("json"@.len() == 4 && "mongo"@.len() == 5);
    assert("mongodb"@[0] == 'm' && "graphql"@[0] == 'g');
    assert("json-filter"@.len() == 11 && "filter"@.len() == 6);
}

/// `mongo` and `json` accept the same texts and give the same filter.
pub proof fn law_mongo_is_json(source: Seq<char>)
    ensures
        json_compiled("mongo"@, source) is Ok <==> json_compiled("json"@, source) is Ok,
        json_compiled("mongo"@, source) is Ok ==> json_compiled("mongo"@, source)->Ok_0.filter
            == json_compiled("json"@, source)->Ok_0.filter,
{
}

/// Ids ascend.
pub open spec fn ids_ascend(list: Seq<DialectInfoView>) -> bool {
    forall|i: int, j: int|
        0 <= i < j < list.len() ==> text_order((#[trigger] list[i]).id, (#[trigger] list[j]).id)
            != Order::Greater
}

/// Placing keeps a list ordered, and adds the one entry to it.
proof fn lemma_placed(list: Seq<DialectInfoView>, info: DialectInfoView)
    requires
        ids_ascend(list),
    ensures
        ids_ascend(placed(list, info)),
        placed(list, info).to_multiset() == list.to_multiset().insert(info),
        placed(list, info).len() == list.len() + 1,
        forall|k: int|
            0 <= k < placed(list, info).len() ==> #[trigger] placed(list, info)[k] == info
                || list.contains(placed(list, info)[k]),
    decreases list.len(),
{
    broadcast use vstd::seq_lib::group_to_multiset_ensures;

    if list.len() > 0 && text_order(list.last().id, info.id) == Order::Greater {
        let head = list.drop_last();
        let last = list.last();
        lemma_placed(head, info);
        let all = placed(list, info);
        let part = placed(head, info);
        assert(list =~= head.push(last));
        assert(all.to_multiset() =~= list.to_multiset().insert(info));
        assert forall|k: int| 0 <= k < all.len() implies #[trigger] all[k] == info
            || list.contains(all[k]) by {
            if k < part.len() {
                assert(all[k] == part[k]);
                if part[k] != info {
                    let w = choose|w: int| 0 <= w < head.len() && head[w] == part[k];
                    assert(list[w] == part[k]);
                }
            } else {
                assert(list[list.len() - 1] == all[k]);
            }
        }
        assert forall|i: int, j: int| 0 <= i < j < all.len() implies text_order(
            (#[trigger] all[i]).id,
            (#[trigger] all[j]).id,
        ) != Order::Greater by {
            if j == part.len() {
                assert(all[i] == part[i]);
                if part[i] == info {
                    lemma_text_order_flip(last.id, info.id);
                } else {
                    let w = choose|w: int| 0 <= w < head.len() && head[w] == part[i];
                    assert(list[w] == part[i]);
                }
            } else {
                assert(all[i] == part[i] && all[j] == part[j]);
            }
        }
    } else {
        let all = list.push(info);
        assert(all.to_multiset() =~= list.to_multiset().insert(info));
        assert forall|i: int, j: int| 0 <= i < j < all.len() implies text_order(
            (#[trigger] all[i]).id,
            (#[trigger] all[j]).id,
        ) != Order::Greater by {
            if j == list.len() && i + 1 < list.len() {
                lemma_text_order_chain(list[i].id, list.last().id, info.id);
            }
        }
        assert forall|k: int| 0 <= k < all.len() implies #[trigger] all[k] == info
            || list.contains(all[k]) by {
            if k < list.len() {
                assert(list[k] == all[k]);
            }
        }
    }
}

/// The listing holds every dialect once, by ascending id.
pub proof fn law_listing_is_sorted(list: Seq<DialectInfoView>)
    ensures
        ids_ascend(ordered(list)),
        ordered(list).to_multiset() == list.to_multiset(),
    decreases list.len(),
{
    broadcast use vstd::seq_lib::group_to_multiset_ensures;

    if list.len() > 0 {
        law_listing_is_sorted(list.drop_last());
        lemma_placed(ordered(list.drop_last()), list.last());
        assert(list =~= list.drop_last().push(list.last()));
    }
}

/// A dialect that was registered is found under its key and cannot be
/// registered again.
pub proof fn law_registered_once(ids: Seq<Seq<char>>, id: Seq<char>)
    requires
        registered(ids, id).1 is None,
    ensures
        registered(ids, id).0.contains(dialect_key(id)),
        dialect_of(dialect_key(id)) is None,
        registered(registered(ids, id).0, id).1 is Some,
{
    let longer = registered(ids, id).0;
    assert(longer[ids.len() as int] == dialect_key(id));
}

} // verus!
