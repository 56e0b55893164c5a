//! A verified ingestion core for Logseq-style outline documents.
//!
//! The crate turns parsed outline documents into addressable entities
//! (files and hierarchical blocks), extracts their annotations
//! (properties, tags, wikilinks) with fixed grammars, and links every
//! entity into an in-memory undirected knowledge graph.

use vstd::prelude::*;

pub mod annotations;
pub mod block;
pub mod chars;
pub mod file;
pub mod graph;
pub mod indexer;
pub mod logseq;
pub mod strutil;
pub mod tree;

verus! {

/// The failures the ingestion core reports. Input errors
/// (`MissingPosition`, `InvalidSpan`, `NoChildren`) let a caller skip
/// the document; the linking errors are fatal under the strict
/// policy.
#[derive(Clone, Copy, Debug, PartialEq, Eq, Structural)]
pub enum IndexError {
    /// A list item carries no position metadata.
    MissingPosition,
    /// A position lies outside the raw text or is reversed.
    InvalidSpan,
    /// The document tree has no children.
    NoChildren,
    /// A builder was not given its document tree.
    MissingAst,
    /// A builder was not given its path.
    MissingPath,
    /// A builder was not given its raw text.
    MissingContent,
    /// An entity's own node is absent from the graph.
    MissingNode,
    /// A block's parent block is absent from the graph.
    MissingParent,
    /// A tag names a page title with no file node in the graph.
    MissingTagTarget,
    /// A wikilink names a page title with no file node in the graph.
    MissingWikilinkTarget,
}

/// True when the path names a markdown document: it ends in `.md`.
pub open spec fn spec_is_markdown_path(p: Seq<char>) -> bool {
    p.len() >= 3 && p.subrange(p.len() - 3, p.len() as int) == ".md"@
}

/// Decides whether a candidate path belongs to the corpus walk.
pub fn is_markdown_path(path: &str) -> (r: bool)
    ensures
        r == spec_is_markdown_path(path@),
{
    let n = path.unicode_len();
    if n < 3 {
        return false;
    }
    proof {
        reveal_strlit(".md");
    }
    let c0 = path.get_char(n - 3);
    let c1 = path.get_char(n - 2);
    let c2 = path.get_char(n - 1);
    let r = c0 == '.' && c1 == 'm' && c2 == 'd';
    proof {
        let p = path@;
        let suffix = p.subrange(p.len() - 3, p.len() as int);
        assert(suffix.len() == 3);
        assert(suffix[0] == c0 && suffix[1] == c1 && suffix[2] == c2);
        if r {
            assert(suffix =~= ".md"@);
        }
    }
    r
}

} // verus!
