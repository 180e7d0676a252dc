//! Compiled dialect queries.

use crate::dialects::{CompiledSda, CompiledSdaView};
use crate::filter::{Filter, FilterView};
use crate::text::texts;
use vstd::prelude::*;

verus! {

/// A query compiled to a portable filter, bound for the Query VM.
#[derive(Debug, PartialEq)]
pub struct CompiledPortable {
    /// Dialect id that produced this compilation.
    pub dialect: String,
    /// Which documents match.
    pub filter: Filter,
    /// Field paths to project; `None` keeps the whole document.
    pub project: Option<Vec<String>>,
    /// Non-fatal mapping notes.
    pub notes: Vec<String>,
}

/// Model of a [`CompiledPortable`].
#[verifier::ext_equal]
pub struct CompiledPortableView {
    pub dialect: Seq<char>,
    pub filter: FilterView,
    pub project: Option<Seq<Seq<char>>>,
    pub notes: Seq<Seq<char>>,
}

impl View for CompiledPortable {
    type V = CompiledPortableView;

    open spec fn view(&self) -> CompiledPortableView {
        CompiledPortableView {
            dialect: self.dialect@,
            filter: self.filter@,
            project: match self.project {
                Some(cols) => Some(texts(cols@)),
                None => None,
            },
            notes: texts(self.notes@),
        }
    }
}

impl CompiledPortable {
    /// A compilation from its parts.
    pub fn new(
        dialect: &str,
        filter: Filter,
        project: Option<Vec<String>>,
        notes: Vec<String>,
    ) -> (r: CompiledPortable)
        ensures
            r@.dialect == dialect@,
            r@.filter == filter@,
            r.project == project,
            r.notes == notes,
    {
        CompiledPortable { dialect: dialect.to_string(), filter, project, notes }
    }
}

/// What a dialect compiles to.
#[derive(Debug, PartialEq)]
pub enum CompiledDialect {
    /// Raw SDA text.
    Sda(CompiledSda),
    /// A portable filter.
    Portable(CompiledPortable),
}

/// Model of a [`CompiledDialect`].
#[verifier::ext_equal]
pub enum CompiledDialectView {
    Sda(CompiledSdaView),
    Portable(CompiledPortableView),
}

impl View for CompiledDialect {
    type V = CompiledDialectView;

    open spec fn view(&self) -> CompiledDialectView {
        match self {
            CompiledDialect::Sda(s) => CompiledDialectView::Sda(s@),
            CompiledDialect::Portable(p) => CompiledDialectView::Portable(p@),
        }
    }
}

impl CompiledDialect {
    /// Id of the dialect that was compiled.
    pub fn dialect_id(&self) -> (r: &str)
        ensures
            r@ == match self@ {
                CompiledDialectView::Sda(s) => s.dialect,
                CompiledDialectView::Portable(p) => p.dialect,
            },
    {
        match self {
            CompiledDialect::Sda(s) => s.dialect.as_str(),
            CompiledDialect::Portable(p) => p.dialect.as_str(),
        }
    }

    /// The portable compilation, where it is one.
    pub fn as_portable(&self) -> (r: Option<&CompiledPortable>)
        ensures
            match r {
                Some(p) => self@ == CompiledDialectView::Portable(p@),
                None => self@ is Sda,
            },
    {
        match self {
            CompiledDialect::Sda(_) => None,
            CompiledDialect::Portable(p) => Some(p),
        }
    }

    /// The SDA compilation, where it is one.
    pub fn as_sda(&self) -> (r: Option<&CompiledSda>)
        ensures
            match r {
                Some(s) => self@ == CompiledDialectView::Sda(s@),
                None => self@ is Portable,
            },
    {
        match self {
            CompiledDialect::Sda(s) => Some(s),
            CompiledDialect::Portable(_) => None,
        }
    }
}

} // verus!
