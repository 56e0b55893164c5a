//! The parsed document tree the builders consume: a closed taxonomy
//! of node kinds with character-offset spans, mirroring what the
//! external markdown parser produces.

use vstd::prelude::*;

verus! {

/// A half-open character range `[start, end)` into the raw text.
#[derive(Clone, Copy, Debug, PartialEq, Eq, Structural)]
pub struct Span {
    /// The offset of the first character of the node.
    pub start: usize,
    /// The offset right after the last character of the node.
    pub end: usize,
}

/// One node of a parsed document. Only the kinds the builders read
/// are distinguished; every other kind is `Other`.
#[derive(Debug)]
pub enum MdNode {
    /// The document root.
    Root { children: Vec<MdNode> },
    /// A list; its span is the parser's position metadata, absent
    /// when the parser gave none.
    List { span: Option<Span>, children: Vec<MdNode> },
    /// One list item.
    ListItem { span: Option<Span>, children: Vec<MdNode> },
    /// A paragraph.
    Paragraph { children: Vec<MdNode> },
    /// A text leaf.
    Text { value: String },
    /// Any other node kind; the builders pass it over.
    Other,
}

/// The span of a list item, absent for other kinds.
pub open spec fn spec_item_span(n: MdNode) -> Option<Span> {
    match n {
        MdNode::ListItem { span, .. } => span,
        _ => None,
    }
}

/// The children of a list item, empty for other kinds.
pub open spec fn spec_item_children(n: MdNode) -> Seq<MdNode> {
    match n {
        MdNode::ListItem { children, .. } => children@,
        _ => Seq::empty(),
    }
}

/// The span of the first list child at or after `i` that carries
/// one; a list without position metadata is passed over.
pub open spec fn spec_first_list_span(cs: Seq<MdNode>, i: int) -> Option<Span>
    decreases cs.len() - i,
{
    if i < 0 || i >= cs.len() {
        None
    } else {
        match cs[i] {
            MdNode::List { span: Some(sp), .. } => Some(sp),
            _ => spec_first_list_span(cs, i + 1),
        }
    }
}

/// A list item is sound against a text of `tlen` characters: it
/// carries a span that lies inside the text, the start of its first
/// positioned list child lies between the item's start and the end
/// of the text, and every item of every list child is sound too.
pub open spec fn spec_item_ok(item: MdNode, tlen: int) -> bool
    decreases item, 2int,
{
    &&& item matches MdNode::ListItem { span: Some(sp), children } && {
        &&& sp.start <= sp.end <= tlen
        &&& match spec_first_list_span(children@, 0) {
            Some(ls) => sp.start <= ls.start <= tlen,
            None => true,
        }
        &&& spec_lists_ok(children@, tlen)
    }
}

/// Every list among `cs` holds only sound items.
pub open spec fn spec_lists_ok(cs: Seq<MdNode>, tlen: int) -> bool
    decreases cs, 1int,
{
    if cs.len() == 0 {
        true
    } else {
        let c = cs.last();
        &&& spec_lists_ok(cs.drop_last(), tlen)
        &&& match c {
            MdNode::List { children, .. } => spec_items_ok(children@, tlen),
            _ => true,
        }
    }
}

/// Every list item among `is` is sound; other kinds are passed over.
pub open spec fn spec_items_ok(is: Seq<MdNode>, tlen: int) -> bool
    decreases is, 0int,
{
    if is.len() == 0 {
        true
    } else {
        let c = is.last();
        &&& spec_items_ok(is.drop_last(), tlen)
        &&& match c {
            MdNode::ListItem { .. } => spec_item_ok(c, tlen),
            _ => true,
        }
    }
}

/// Soundness of a child list reaches each of its members.
pub proof fn lemma_lists_ok_index(cs: Seq<MdNode>, tlen: int, ci: int)
    requires
        spec_lists_ok(cs, tlen),
        0 <= ci < cs.len(),
    ensures
        match cs[ci] {
            MdNode::List { children, .. } => spec_items_ok(children@, tlen),
            _ => true,
        },
    decreases cs.len(),
{
    if ci < cs.len() - 1 {
        lemma_lists_ok_index(cs.drop_last(), tlen, ci);
        assert(cs.drop_last()[ci] == cs[ci]);
    }
}

/// Soundness of an item list reaches each of its members.
pub proof fn lemma_items_ok_index(is: Seq<MdNode>, tlen: int, gi: int)
    requires
        spec_items_ok(is, tlen),
        0 <= gi < is.len(),
    ensures
        match is[gi] {
            MdNode::ListItem { .. } => spec_item_ok(is[gi], tlen),
            _ => true,
        },
    decreases is.len(),
{
    if gi < is.len() - 1 {
        lemma_items_ok_index(is.drop_last(), tlen, gi);
        assert(is.drop_last()[gi] == is[gi]);
    }
}

} // verus!
