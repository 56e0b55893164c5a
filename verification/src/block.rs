//! Blocks: one entity per hierarchical list item, with its content
//! slice and extracted annotations, built recursively over the item's
//! subtree.

use vstd::prelude::*;

use crate::IndexError;
use crate::annotations::PropMap;
use crate::annotations::extract_id;
use crate::annotations::extract_properties;
use crate::annotations::extract_tags;
use crate::annotations::extract_wikilinks;
use crate::annotations::spec_block_excluded_keys;
use crate::annotations::spec_declared_id;
use crate::annotations::spec_pairs_map;
use crate::annotations::spec_props_from;
use crate::annotations::spec_tags_from;
use crate::annotations::spec_wikilinks_from;
use crate::chars::spec_is_id_char;
use crate::strutil::spec_trim;
use crate::strutil::trim_str;
use crate::tree::MdNode;
use crate::tree::Span;
use crate::tree::lemma_items_ok_index;
use crate::tree::lemma_lists_ok_index;
use crate::tree::spec_first_list_span;
use crate::tree::spec_item_children;
use crate::tree::spec_item_span;
use crate::tree::spec_item_ok;
use crate::tree::spec_items_ok;
use crate::tree::spec_lists_ok;

verus! {

/// One hierarchical list item and its extracted annotations.
#[derive(Debug, PartialEq)]
pub struct Block {
    /// The declared or freshly generated identifier of the block.
    pub id: String,
    /// The trimmed source slice the block owns, nested lists excluded.
    pub content: String,
    /// The identifier of the owning file.
    pub file_id: String,
    /// The identifier of the enclosing block, absent at top level.
    pub parent_block_id: Option<String>,
    /// The properties the block's own content declares, `id` left out.
    pub properties: PropMap,
    /// The tags of the block's own content, in match order.
    pub tags: Vec<String>,
    /// The wikilinks of the block's own content, in match order.
    pub wikilinks: Vec<String>,
}

/// The view of an optional string.
pub open spec fn spec_opt_view(o: Option<String>) -> Option<Seq<char>> {
    match o {
        Some(s) => Some(s@),
        None => None,
    }
}

/// The content slice an item owns: from its start to the start of
/// its first positioned list child, or to its own end when it has
/// none, trimmed.
pub open spec fn spec_slice_of(t: Seq<char>, sp: Span, fls: Option<Span>) -> Seq<char> {
    let end = match fls {
        Some(ls) => ls.start as int,
        None => sp.end as int,
    };
    spec_trim(t.subrange(sp.start as int, end))
}

/// A block identifier agrees with its content slice: the declared
/// token when the slice declares one, else 36 fresh identifier
/// characters.
pub open spec fn spec_block_id_ok(id: Seq<char>, slice: Seq<char>) -> bool {
    match spec_declared_id(slice) {
        Some(token) => id == token,
        None => id.len() == 36 && forall|k: int| 0 <= k < 36 ==> spec_is_id_char(#[trigger] id[k]),
    }
}

/// A block is exactly what its content slice prescribes.
pub open spec fn spec_block_matches(
    b: Block,
    slice: Seq<char>,
    fid: Seq<char>,
    parent: Option<Seq<char>>,
) -> bool {
    &&& b.content@ == slice
    &&& b.file_id@ == fid
    &&& spec_opt_view(b.parent_block_id) == parent
    &&& b.properties.wf()
    &&& b.properties@ == spec_pairs_map(spec_props_from(slice, 0), spec_block_excluded_keys())
    &&& b.tags.deep_view() == spec_tags_from(slice, 0)
    &&& b.wikilinks.deep_view() == spec_wikilinks_from(slice, 0)
    &&& spec_block_id_ok(b.id@, slice)
}

/// How many blocks one list item yields: itself and all of its
/// descendants.
pub open spec fn spec_count_item(item: MdNode) -> nat
    decreases item, 2int,
{
    match item {
        MdNode::ListItem { children, .. } => 1 + spec_count_lists(children@),
        _ => 0,
    }
}

/// How many blocks the list children among `cs` yield together.
pub open spec fn spec_count_lists(cs: Seq<MdNode>) -> nat
    decreases cs, 1int,
{
    if cs.len() == 0 {
        0
    } else {
        spec_count_lists(cs.drop_last()) + (match cs.last() {
            MdNode::List { children, .. } => spec_count_items(children@),
            _ => 0,
        })
    }
}

/// How many blocks the list items among `is` yield together.
pub open spec fn spec_count_items(is: Seq<MdNode>) -> nat
    decreases is, 0int,
{
    if is.len() == 0 {
        0
    } else {
        spec_count_items(is.drop_last()) + (match is.last() {
            MdNode::ListItem { .. } => spec_count_item(is.last()),
            _ => 0,
        })
    }
}

/// The blocks built for one list item: its descendants' blocks in
/// child order, then its own block last, with every descendant's
/// parent chain rooted at this item's identifier.
pub open spec fn spec_built_item(
    r: Seq<Block>,
    item: MdNode,
    t: Seq<char>,
    fid: Seq<char>,
    parent: Option<Seq<char>>,
) -> bool
    decreases item, 2int,
{
    match item {
        MdNode::ListItem { span: Some(sp), children } => {
            let slice = spec_slice_of(t, sp, spec_first_list_span(children@, 0));
            &&& r.len() == 1 + spec_count_lists(children@)
            &&& spec_block_matches(r.last(), slice, fid, parent)
            &&& spec_built_lists(r.drop_last(), children@, t, fid, r.last().id@)
        },
        _ => false,
    }
}

/// The blocks built for the list children among `cs`, concatenated
/// in child order; other kinds contribute nothing.
pub open spec fn spec_built_lists(
    r: Seq<Block>,
    cs: Seq<MdNode>,
    t: Seq<char>,
    fid: Seq<char>,
    parent_id: Seq<char>,
) -> bool
    decreases cs, 1int,
{
    if cs.len() == 0 {
        r.len() == 0
    } else {
        match cs.last() {
            MdNode::List { children, .. } => {
                let c = spec_count_items(children@) as int;
                &&& r.len() >= c
                &&& spec_built_lists(r.take(r.len() - c), cs.drop_last(), t, fid, parent_id)
                &&& spec_built_items(
                    r.subrange(r.len() - c, r.len() as int),
                    children@,
                    t,
                    fid,
                    Some(parent_id),
                )
            },
            _ => spec_built_lists(r, cs.drop_last(), t, fid, parent_id),
        }
    }
}

/// The blocks built for the list items among `is`, concatenated in
/// item order, each with `parent` as its parent.
pub open spec fn spec_built_items(
    r: Seq<Block>,
    is: Seq<MdNode>,
    t: Seq<char>,
    fid: Seq<char>,
    parent: Option<Seq<char>>,
) -> bool
    decreases is, 0int,
{
    if is.len() == 0 {
        r.len() == 0
    } else {
        match is.last() {
            MdNode::ListItem { .. } => {
                let c = spec_count_item(is.last()) as int;
                &&& r.len() >= c
                &&& spec_built_items(r.take(r.len() - c), is.drop_last(), t, fid, parent)
                &&& spec_built_item(r.subrange(r.len() - c, r.len() as int), is.last(), t, fid, parent)
            },
            _ => spec_built_items(r, is.drop_last(), t, fid, parent),
        }
    }
}

/// Built blocks for an item are exactly as many as the item yields.
pub proof fn lemma_built_item_len(
    r: Seq<Block>,
    item: MdNode,
    t: Seq<char>,
    fid: Seq<char>,
    parent: Option<Seq<char>>,
)
    requires
        spec_built_item(r, item, t, fid, parent),
    ensures
        r.len() == spec_count_item(item),
{
}

/// Built blocks for list children are exactly as many as they yield.
pub proof fn lemma_built_lists_len(
    r: Seq<Block>,
    cs: Seq<MdNode>,
    t: Seq<char>,
    fid: Seq<char>,
    parent_id: Seq<char>,
)
    requires
        spec_built_lists(r, cs, t, fid, parent_id),
    ensures
        r.len() == spec_count_lists(cs),
    decreases cs, 1int,
{
    if cs.len() > 0 {
        match cs.last() {
            MdNode::List { children, .. } => {
                let c = spec_count_items(children@) as int;
                lemma_built_lists_len(r.take(r.len() - c), cs.drop_last(), t, fid, parent_id);
                lemma_built_items_len(
                    r.subrange(r.len() - c, r.len() as int),
                    children@,
                    t,
                    fid,
                    Some(parent_id),
                );
            },
            _ => {
                lemma_built_lists_len(r, cs.drop_last(), t, fid, parent_id);
            },
        }
    }
}

/// Built blocks for list items are exactly as many as they yield.
pub proof fn lemma_built_items_len(
    r: Seq<Block>,
    is: Seq<MdNode>,
    t: Seq<char>,
    fid: Seq<char>,
    parent: Option<Seq<char>>,
)
    requires
        spec_built_items(r, is, t, fid, parent),
    ensures
        r.len() == spec_count_items(is),
    decreases is, 0int,
{
    if is.len() > 0 {
        match is.last() {
            MdNode::ListItem { .. } => {
                let c = spec_count_item(is.last()) as int;
                lemma_built_items_len(r.take(r.len() - c), is.drop_last(), t, fid, parent);
            },
            _ => {
                lemma_built_items_len(r, is.drop_last(), t, fid, parent);
            },
        }
    }
}

/// Builds the blocks of one list item and its subtree.
pub struct BlockBuilder {
    /// The identifier of the owning file.
    pub file_id: Option<String>,
    /// The path of the owning file; carried for callers, not read.
    pub file_path: Option<String>,
    /// The identifier of the enclosing block, absent at top level.
    pub parent_block_id: Option<String>,
}

impl BlockBuilder {
    /// An empty builder.
    pub fn new() -> (r: BlockBuilder)
        ensures
            r.file_id is None,
            r.file_path is None,
            r.parent_block_id is None,
    {
        BlockBuilder { file_id: None, file_path: None, parent_block_id: None }
    }

    /// Sets the owning file's identifier.
    pub fn with_file_id(self, file_id: String) -> (r: BlockBuilder)
        ensures
            r.file_id == Some(file_id),
            r.file_path == self.file_path,
            r.parent_block_id == self.parent_block_id,
    {
        BlockBuilder { file_id: Some(file_id), ..self }
    }

    /// Sets the owning file's path.
    pub fn with_file_path(self, file_path: String) -> (r: BlockBuilder)
        ensures
            r.file_path == Some(file_path),
            r.file_id == self.file_id,
            r.parent_block_id == self.parent_block_id,
    {
        BlockBuilder { file_path: Some(file_path), ..self }
    }

    /// Sets the enclosing block's identifier.
    pub fn with_parent_block_id(self, parent_block_id: String) -> (r: BlockBuilder)
        ensures
            r.parent_block_id == Some(parent_block_id),
            r.file_id == self.file_id,
            r.file_path == self.file_path,
    {
        BlockBuilder { parent_block_id: Some(parent_block_id), ..self }
    }

    /// The content slice the item owns: from its start offset to the
    /// start of its first positioned list child, else to its end
    /// offset, trimmed. Fails when the item has no position or a
    /// position lies outside the text.
    pub fn get_slice(&self, content: &str, list_item: &MdNode) -> (r: Result<String, IndexError>)
        requires
            *list_item matches MdNode::ListItem { .. },
        ensures
            match r {
                Ok(s) => (match *list_item {
                    MdNode::ListItem { span: Some(sp), children } => {
                        &&& sp.start <= sp.end <= content@.len()
                        &&& (match spec_first_list_span(children@, 0) {
                            Some(ls) => sp.start <= ls.start <= content@.len(),
                            None => true,
                        })
                        &&& s@ == spec_slice_of(content@, sp, spec_first_list_span(children@, 0))
                    },
                    _ => false,
                }),
                Err(e) => {
                    &&& (e == IndexError::MissingPosition || e == IndexError::InvalidSpan)
                    &&& !spec_item_ok(*list_item, content@.len() as int)
                },
            },
    {
        let n = content.unicode_len();
        match list_item {
            MdNode::ListItem { span: Some(sp), children } => {
                if sp.start > sp.end || sp.end > n {
                    return Err(IndexError::InvalidSpan);
                }
                let fls = first_list_span(children);
                let end = match fls {
                    Some(ls) => {
                        if ls.start < sp.start || ls.start > n {
                            return Err(IndexError::InvalidSpan);
                        }
                        ls.start
                    },
                    None => sp.end,
                };
                Ok(trim_str(content.substring_char(sp.start, end)))
            },
            MdNode::ListItem { span: None, .. } => Err(IndexError::MissingPosition),
            _ => {
                assert(false);
                Err(IndexError::MissingPosition)
            },
        }
    }

    /// Builds the blocks of the item's subtree: every descendant
    /// before its own ancestor, the item's own block last. Succeeds
    /// exactly when every item of the subtree carries a sound span.
    pub fn build(self, content: &str, list_item: &MdNode) -> (r: Result<Vec<Block>, IndexError>)
        requires
            self.file_id is Some,
            *list_item matches MdNode::ListItem { .. },
        ensures
            r is Ok <==> spec_item_ok(*list_item, content@.len() as int),
            match r {
                Ok(blocks) => spec_built_item(
                    blocks@,
                    *list_item,
                    content@,
                    self.file_id->Some_0@,
                    spec_opt_view(self.parent_block_id),
                ),
                Err(e) => e == IndexError::MissingPosition || e == IndexError::InvalidSpan,
            },
    {
        match self.file_id {
            Some(fid) => build_rec(content, list_item, fid.as_str(), self.parent_block_id),
            None => {
                assert(false);
                Err(IndexError::MissingPosition)
            },
        }
    }
}

/// Finds the span of the first positioned list child.
fn first_list_span(cs: &Vec<MdNode>) -> (r: Option<Span>)
    ensures
        r == spec_first_list_span(cs@, 0),
{
    let n = cs.len();
    let mut ci: usize = 0;
    while ci < n
        invariant
            0 <= ci <= n,
            n == cs@.len(),
            spec_first_list_span(cs@, 0) == spec_first_list_span(cs@, ci as int),
        decreases n - ci,
    {
        match &cs[ci] {
            MdNode::List { span: Some(sp), .. } => {
                return Some(*sp);
            },
            _ => {},
        }
        ci = ci + 1;
    }
    None
}

/// Appending the blocks of one more list child extends the built
/// relation by that child.
pub proof fn lemma_built_lists_snoc_list(
    r1: Seq<Block>,
    r2: Seq<Block>,
    cs: Seq<MdNode>,
    c: MdNode,
    t: Seq<char>,
    fid: Seq<char>,
    pid: Seq<char>,
)
    requires
        c is List,
        spec_built_lists(r1, cs, t, fid, pid),
        spec_built_items(r2, c->List_children@, t, fid, Some(pid)),
    ensures
        spec_built_lists(r1 + r2, cs.push(c), t, fid, pid),
{
    let r = r1 + r2;
    let cs2 = cs.push(c);
    assert(cs2.drop_last() =~= cs);
    assert(cs2.last() == c);
    lemma_built_items_len(r2, c->List_children@, t, fid, Some(pid));
    let cnt = spec_count_items(c->List_children@) as int;
    assert(r.take(r.len() - cnt) =~= r1);
    assert(r.subrange(r.len() - cnt, r.len() as int) =~= r2);
}

/// A child of another kind extends the built relation with nothing.
pub proof fn lemma_built_lists_snoc_other(
    r: Seq<Block>,
    cs: Seq<MdNode>,
    c: MdNode,
    t: Seq<char>,
    fid: Seq<char>,
    pid: Seq<char>,
)
    requires
        !(c is List),
        spec_built_lists(r, cs, t, fid, pid),
    ensures
        spec_built_lists(r, cs.push(c), t, fid, pid),
{
    assert(cs.push(c).drop_last() =~= cs);
    assert(cs.push(c).last() == c);
}

/// Appending the blocks of one more list item extends the built
/// relation by that item.
pub proof fn lemma_built_items_snoc_item(
    r1: Seq<Block>,
    r2: Seq<Block>,
    is: Seq<MdNode>,
    g: MdNode,
    t: Seq<char>,
    fid: Seq<char>,
    pid: Option<Seq<char>>,
)
    requires
        g is ListItem,
        spec_built_items(r1, is, t, fid, pid),
        spec_built_item(r2, g, t, fid, pid),
    ensures
        spec_built_items(r1 + r2, is.push(g), t, fid, pid),
{
    let r = r1 + r2;
    let is2 = is.push(g);
    assert(is2.drop_last() =~= is);
    assert(is2.last() == g);
    lemma_built_item_len(r2, g, t, fid, pid);
    let cnt = spec_count_item(g) as int;
    assert(r.take(r.len() - cnt) =~= r1);
    assert(r.subrange(r.len() - cnt, r.len() as int) =~= r2);
}

/// An item-list member of another kind extends the built relation
/// with nothing.
pub proof fn lemma_built_items_snoc_other(
    r: Seq<Block>,
    is: Seq<MdNode>,
    g: MdNode,
    t: Seq<char>,
    fid: Seq<char>,
    pid: Option<Seq<char>>,
)
    requires
        !(g is ListItem),
        spec_built_items(r, is, t, fid, pid),
    ensures
        spec_built_items(r, is.push(g), t, fid, pid),
{
    assert(is.push(g).drop_last() =~= is);
    assert(is.push(g).last() == g);
}

/// Builds the blocks of one list item's subtree recursively.
#[verifier::loop_isolation(false)]
fn build_rec(content: &str, item: &MdNode, file_id: &str, parent: Option<String>) -> (r: Result<
    Vec<Block>,
    IndexError,
>)
    requires
        *item matches MdNode::ListItem { .. },
    ensures
        r is Ok <==> spec_item_ok(*item, content@.len() as int),
        match r {
            Ok(blocks) => spec_built_item(blocks@, *item, content@, file_id@, spec_opt_view(parent)),
            Err(e) => e == IndexError::MissingPosition || e == IndexError::InvalidSpan,
        },
    decreases *item,
{
    let ghost tlen = content@.len() as int;
    let n = content.unicode_len();
    match item {
        MdNode::ListItem { span: Some(sp), children: kids } => {
            if sp.start > sp.end || sp.end > n {
                return Err(IndexError::InvalidSpan);
            }
            let fls = first_list_span(kids);
            let end = match fls {
                Some(ls) => {
                    if ls.start < sp.start || ls.start > n {
                        return Err(IndexError::InvalidSpan);
                    }
                    ls.start
                },
                None => sp.end,
            };
            let slice = trim_str(content.substring_char(sp.start, end));
            let ghost slice_view = spec_slice_of(content@, *sp, spec_first_list_span(kids@, 0));
            assert(slice@ == slice_view);
            let own_id = extract_id(slice.as_str());
            let properties = extract_properties(slice.as_str());
            let wikilinks = extract_wikilinks(slice.as_str());
            let tags = extract_tags(slice.as_str());
            let mut blocks: Vec<Block> = Vec::new();
            let mut ci: usize = 0;
            proof {
                assert(kids@.take(0) =~= Seq::<MdNode>::empty());
            }
            while ci < kids.len()
                invariant
                    0 <= ci <= kids@.len(),
                    n == content@.len(),
                    tlen == n as int,
                    spec_built_lists(blocks@, kids@.take(ci as int), content@, file_id@, own_id@),
                    spec_lists_ok(kids@.take(ci as int), tlen),
                decreases kids@.len() - ci,
            {
                let child = &kids[ci];
                match child {
                    MdNode::List { children: items, .. } => {
                        let ghost outer_len = blocks@.len() as int;
                        let mut gi: usize = 0;
                        proof {
                            assert(items@.take(0) =~= Seq::<MdNode>::empty());
                            assert(blocks@.subrange(outer_len, blocks@.len() as int) =~= Seq::<
                                Block,
                            >::empty());
                            assert(blocks@.take(outer_len) =~= blocks@);
                        }
                        while gi < items.len()
                            invariant
                                0 <= gi <= items@.len(),
                                n == content@.len(),
                                tlen == n as int,
                                0 <= ci < kids@.len(),
                                0 <= outer_len <= blocks@.len(),
                                spec_built_lists(
                                    blocks@.take(outer_len),
                                    kids@.take(ci as int),
                                    content@,
                                    file_id@,
                                    own_id@,
                                ),
                                spec_lists_ok(kids@.take(ci as int), tlen),
                                spec_built_items(
                                    blocks@.subrange(outer_len, blocks@.len() as int),
                                    items@.take(gi as int),
                                    content@,
                                    file_id@,
                                    Some(own_id@),
                                ),
                                spec_items_ok(items@.take(gi as int), tlen),
                            decreases items@.len() - gi,
                        {
                            let g = &items[gi];
                            match g {
                                MdNode::ListItem { .. } => {
                                    proof {
                                        assert((*item)->ListItem_children == *kids);
                                        assert((*child)->List_children == *items);
                                        assert(decreases_to!(*item => (*item)->ListItem_children));
                                        assert(decreases_to!(
                                            (*item)->ListItem_children => kids@));
                                        assert(decreases_to!(kids@ => kids@[ci as int]));
                                        assert(kids@[ci as int] == *child);
                                        assert(decreases_to!(*child => (*child)->List_children));
                                        assert(decreases_to!((*child)->List_children => items@));
                                        assert(decreases_to!(items@ => items@[gi as int]));
                                        assert(items@[gi as int] == *g);
                                        assert(decreases_to!(*item => *g));
                                    }
                                    let sub_parent = Some(own_id.clone());
                                    let ghost sub_parent_view = spec_opt_view(sub_parent);
                                    let sub = build_rec(content, g, file_id, sub_parent);
                                    match sub {
                                        Ok(mut sub_blocks) => {
                                            let ghost pre = blocks@;
                                            let ghost sub_view = sub_blocks@;
                                            blocks.append(&mut sub_blocks);
                                            proof {
                                                let suff_pre = pre.subrange(
                                                    outer_len,
                                                    pre.len() as int,
                                                );
                                                let suff_now = blocks@.subrange(
                                                    outer_len,
                                                    blocks@.len() as int,
                                                );
                                                assert(blocks@.take(outer_len) =~= pre.take(
                                                    outer_len,
                                                ));
                                                assert(sub_parent_view == Some(own_id@));
                                                lemma_built_items_snoc_item(
                                                    suff_pre,
                                                    sub_view,
                                                    items@.take(gi as int),
                                                    items@[gi as int],
                                                    content@,
                                                    file_id@,
                                                    Some(own_id@),
                                                );
                                                assert(suff_now =~= suff_pre + sub_view);
                                                assert(items@.take(gi + 1) =~= items@.take(
                                                    gi as int,
                                                ).push(items@[gi as int]));
                                                assert(items@.take(gi + 1).drop_last()
                                                    =~= items@.take(gi as int));
                                                assert(items@.take(gi + 1).last() == items@[gi as int]);
                                                assert(spec_items_ok(items@.take(gi + 1), tlen));
                                            }
                                        },
                                        Err(e) => {
                                            proof {
                                                if spec_item_ok(*item, tlen) {
                                                    lemma_lists_ok_index(kids@, tlen, ci as int);
                                                    lemma_items_ok_index(items@, tlen, gi as int);
                                                    assert(false);
                                                }
                                            }
                                            return Err(e);
                                        },
                                    }
                                },
                                _ => {
                                    proof {
                                        lemma_built_items_snoc_other(
                                            blocks@.subrange(outer_len, blocks@.len() as int),
                                            items@.take(gi as int),
                                            items@[gi as int],
                                            content@,
                                            file_id@,
                                            Some(own_id@),
                                        );
                                        assert(items@.take(gi + 1) =~= items@.take(
                                            gi as int,
                                        ).push(items@[gi as int]));
                                        assert(items@.take(gi + 1).drop_last() =~= items@.take(
                                            gi as int,
                                        ));
                                        assert(items@.take(gi + 1).last() == items@[gi as int]);
                                    }
                                },
                            }
                            gi = gi + 1;
                        }
                        proof {
                            assert(items@.take(items@.len() as int) =~= items@);
                            let cs1 = kids@.take(ci + 1);
                            assert(cs1 =~= kids@.take(ci as int).push(kids@[ci as int]));
                            assert(cs1.drop_last() =~= kids@.take(ci as int));
                            assert(cs1.last() == kids@[ci as int]);
                            assert(kids@[ci as int] == *child);
                            assert((*child)->List_children == *items);
                            lemma_built_lists_snoc_list(
                                blocks@.take(outer_len),
                                blocks@.subrange(outer_len, blocks@.len() as int),
                                kids@.take(ci as int),
                                kids@[ci as int],
                                content@,
                                file_id@,
                                own_id@,
                            );
                            assert(blocks@ =~= blocks@.take(outer_len) + blocks@.subrange(
                                outer_len,
                                blocks@.len() as int,
                            ));
                            assert(spec_lists_ok(cs1, tlen));
                        }
                    },
                    _ => {
                        proof {
                            lemma_built_lists_snoc_other(
                                blocks@,
                                kids@.take(ci as int),
                                kids@[ci as int],
                                content@,
                                file_id@,
                                own_id@,
                            );
                            assert(kids@.take(ci + 1) =~= kids@.take(ci as int).push(
                                kids@[ci as int],
                            ));
                            assert(kids@.take(ci + 1).drop_last() =~= kids@.take(ci as int));
                            assert(kids@.take(ci + 1).last() == kids@[ci as int]);
                        }
                    },
                }
                ci = ci + 1;
            }
            proof {
                assert(kids@.take(kids@.len() as int) =~= kids@);
            }
            let ghost pre_push = blocks@;
            let root = Block {
                id: own_id,
                content: slice,
                file_id: file_id.to_owned(),
                parent_block_id: parent,
                properties,
                tags,
                wikilinks,
            };
            blocks.push(root);
            proof {
                assert(blocks@.drop_last() =~= pre_push);
                lemma_built_lists_len(pre_push, kids@, content@, file_id@, own_id@);
                assert((*item)->ListItem_children@ == kids@);
                assert((*item)->ListItem_span == Some(*sp));
                assert(blocks@.last().id@ == own_id@);
                assert(spec_block_matches(
                    blocks@.last(),
                    slice_view,
                    file_id@,
                    spec_opt_view(parent),
                ));
                assert(spec_item_ok(*item, tlen));
                assert(spec_built_item(
                    blocks@,
                    *item,
                    content@,
                    file_id@,
                    spec_opt_view(parent),
                ));
            }
            Ok(blocks)
        },
        MdNode::ListItem { span: None, .. } => Err(IndexError::MissingPosition),
        _ => {
            assert(false);
            Err(IndexError::MissingPosition)
        },
    }
}

/// Children of an item with no list child yield no blocks.
proof fn lemma_count_lists_no_list(cs: Seq<MdNode>)
    requires
        forall|i: int| 0 <= i < cs.len() ==> !((#[trigger] cs[i]) is List),
    ensures
        spec_count_lists(cs) == 0,
    decreases cs.len(),
{
    if cs.len() > 0 {
        assert(!(cs.last() is List));
        lemma_count_lists_no_list(cs.drop_last());
    }
}

/// An item with no list child has no positioned list child.
proof fn lemma_first_list_span_none(cs: Seq<MdNode>, i: int)
    requires
        forall|k: int| 0 <= k < cs.len() ==> !((#[trigger] cs[k]) is List),
        0 <= i,
    ensures
        spec_first_list_span(cs, i) is None,
    decreases cs.len() - i,
{
    if i < cs.len() {
        lemma_first_list_span_none(cs, i + 1);
    }
}

/// A list item with no nested list builds to exactly one block, and
/// that block's content is the trimmed full span of the item.
pub proof fn lemma_leaf_item_single_block(
    r: Seq<Block>,
    item: MdNode,
    t: Seq<char>,
    fid: Seq<char>,
    parent: Option<Seq<char>>,
)
    requires
        spec_built_item(r, item, t, fid, parent),
        forall|i: int|
            0 <= i < spec_item_children(item).len() ==> !((#[trigger] spec_item_children(item)[i])
                is List),
    ensures
        r.len() == 1,
        r[0].content@ == spec_trim(
            t.subrange(
                spec_item_span(item)->Some_0.start as int,
                spec_item_span(item)->Some_0.end as int,
            ),
        ),
{
    match item {
        MdNode::ListItem { span: Some(sp), children } => {
            assert(children@ == spec_item_children(item));
            lemma_count_lists_no_list(children@);
            lemma_first_list_span_none(children@, 0);
            assert(r.len() == 1);
            assert(r[0] == r.last());
        },
        _ => {
            assert(false);
        },
    }
}

/// The parent of the block at `i` is resolved: either a block later
/// in the list carries that identifier, or it is the given outer
/// parent.
pub open spec fn spec_parent_linked(r: Seq<Block>, i: int, p: Option<Seq<char>>) -> bool {
    ||| (r[i].parent_block_id is Some && exists|j: int|
        i < j < r.len() && (#[trigger] r[j].id)@ == r[i].parent_block_id->Some_0@)
    ||| spec_opt_view(r[i].parent_block_id) == p
}

/// A parent link survives putting the blocks in front of a longer
/// list that ends with the same blocks.
proof fn lemma_parent_linked_prefix(r: Seq<Block>, whole: Seq<Block>, i: int, p: Option<Seq<char>>)
    requires
        r.len() <= whole.len(),
        forall|k: int| 0 <= k < r.len() ==> whole[k] == r[k],
        0 <= i < r.len(),
        spec_parent_linked(r, i, p),
    ensures
        spec_parent_linked(whole, i, p),
{
    if r[i].parent_block_id is Some && exists|j: int|
        i < j < r.len() && (#[trigger] r[j].id)@ == r[i].parent_block_id->Some_0@ {
        let j = choose|j: int|
            i < j < r.len() && (#[trigger] r[j].id)@ == r[i].parent_block_id->Some_0@;
        assert(whole[j].id@ == whole[i].parent_block_id->Some_0@);
    }
}

/// A parent link survives shifting the blocks to the tail of a
/// longer list.
proof fn lemma_parent_linked_suffix(
    r: Seq<Block>,
    whole: Seq<Block>,
    off: int,
    i: int,
    p: Option<Seq<char>>,
)
    requires
        0 <= off,
        off + r.len() == whole.len(),
        forall|k: int| 0 <= k < r.len() ==> whole[off + k] == r[k],
        0 <= i < r.len(),
        spec_parent_linked(r, i, p),
    ensures
        spec_parent_linked(whole, off + i, p),
{
    if r[i].parent_block_id is Some && exists|j: int|
        i < j < r.len() && (#[trigger] r[j].id)@ == r[i].parent_block_id->Some_0@ {
        let j = choose|j: int|
            i < j < r.len() && (#[trigger] r[j].id)@ == r[i].parent_block_id->Some_0@;
        assert(whole[off + j].id@ == whole[off + i].parent_block_id->Some_0@);
    }
}

/// Every block built for one item has its parent resolved inside the
/// list or equal to the item's outer parent; the item's own block,
/// last in the list, carries the outer parent itself.
pub proof fn lemma_built_item_parents(
    r: Seq<Block>,
    item: MdNode,
    t: Seq<char>,
    fid: Seq<char>,
    parent: Option<Seq<char>>,
)
    requires
        spec_built_item(r, item, t, fid, parent),
    ensures
        forall|i: int| 0 <= i < r.len() ==> spec_parent_linked(r, i, parent),
    decreases item, 2int,
{
    match item {
        MdNode::ListItem { span: Some(sp), children } => {
            let sub = r.drop_last();
            lemma_built_lists_parents(sub, children@, t, fid, r.last().id@);
            assert forall|i: int| 0 <= i < r.len() implies spec_parent_linked(r, i, parent) by {
                if i < r.len() - 1 {
                    assert(spec_parent_linked(sub, i, Some(r.last().id@)));
                    if spec_opt_view(sub[i].parent_block_id) == Some(r.last().id@) {
                        assert(r[r.len() - 1].id@ == r[i].parent_block_id->Some_0@);
                    } else {
                        lemma_parent_linked_prefix(sub, r, i, Some(r.last().id@));
                        assert(spec_parent_linked(r, i, Some(r.last().id@)));
                        let j = choose|j: int|
                            i < j < r.len() && (#[trigger] r[j].id)@
                                == r[i].parent_block_id->Some_0@;
                        assert(r[j].id@ == r[i].parent_block_id->Some_0@);
                    }
                } else {
                    assert(spec_opt_view(r[i].parent_block_id) == parent);
                }
            }
        },
        _ => {
            assert(false);
        },
    }
}

/// Every block built for the list children of an item has its parent
/// resolved inside the list or equal to the enclosing item's
/// identifier.
pub proof fn lemma_built_lists_parents(
    r: Seq<Block>,
    cs: Seq<MdNode>,
    t: Seq<char>,
    fid: Seq<char>,
    pid: Seq<char>,
)
    requires
        spec_built_lists(r, cs, t, fid, pid),
    ensures
        forall|i: int| 0 <= i < r.len() ==> spec_parent_linked(r, i, Some(pid)),
    decreases cs, 1int,
{
    if cs.len() > 0 {
        match cs.last() {
            MdNode::List { children, .. } => {
                let c = spec_count_items(children@) as int;
                let r1 = r.take(r.len() - c);
                let r2 = r.subrange(r.len() - c, r.len() as int);
                lemma_built_lists_parents(r1, cs.drop_last(), t, fid, pid);
                lemma_built_items_parents(r2, children@, t, fid, Some(pid));
                assert forall|i: int| 0 <= i < r.len() implies spec_parent_linked(
                    r,
                    i,
                    Some(pid),
                ) by {
                    if i < r.len() - c {
                        lemma_parent_linked_prefix(r1, r, i, Some(pid));
                    } else {
                        lemma_parent_linked_suffix(r2, r, r.len() - c, i - (r.len() - c), Some(pid));
                    }
                }
            },
            _ => {
                lemma_built_lists_parents(r, cs.drop_last(), t, fid, pid);
            },
        }
    }
}

/// Every block built for a run of list items has its parent resolved
/// inside the list or equal to the given outer parent.
pub proof fn lemma_built_items_parents(
    r: Seq<Block>,
    is: Seq<MdNode>,
    t: Seq<char>,
    fid: Seq<char>,
    parent: Option<Seq<char>>,
)
    requires
        spec_built_items(r, is, t, fid, parent),
    ensures
        forall|i: int| 0 <= i < r.len() ==> spec_parent_linked(r, i, parent),
    decreases is, 0int,
{
    if is.len() > 0 {
        match is.last() {
            MdNode::ListItem { .. } => {
                let c = spec_count_item(is.last()) as int;
                let r1 = r.take(r.len() - c);
                let r2 = r.subrange(r.len() - c, r.len() as int);
                lemma_built_items_parents(r1, is.drop_last(), t, fid, parent);
                lemma_built_item_parents(r2, is.last(), t, fid, parent);
                assert forall|i: int| 0 <= i < r.len() implies spec_parent_linked(
                    r,
                    i,
                    parent,
                ) by {
                    if i < r.len() - c {
                        lemma_parent_linked_prefix(r1, r, i, parent);
                    } else {
                        lemma_parent_linked_suffix(r2, r, r.len() - c, i - (r.len() - c), parent);
                    }
                }
            },
            _ => {
                lemma_built_items_parents(r, is.drop_last(), t, fid, parent);
            },
        }
    }
}

/// Blocks come out children first: the built list has one block per
/// item of the subtree, the item's own block stands last, and every
/// other block's parent is carried by a block later in the list.
pub proof fn lemma_built_item_order(
    r: Seq<Block>,
    item: MdNode,
    t: Seq<char>,
    fid: Seq<char>,
    parent: Option<Seq<char>>,
)
    requires
        spec_built_item(r, item, t, fid, parent),
    ensures
        r.len() == spec_count_item(item),
        spec_opt_view(r.last().parent_block_id) == parent,
        forall|i: int|
            0 <= i < r.len() - 1 ==> (#[trigger] r[i]).parent_block_id is Some && exists|j: int|
                i < j < r.len() && (#[trigger] r[j].id)@ == r[i].parent_block_id->Some_0@,
{
    lemma_built_item_len(r, item, t, fid, parent);
    match item {
        MdNode::ListItem { span: Some(sp), children } => {
            let sub = r.drop_last();
            lemma_built_lists_parents(sub, children@, t, fid, r.last().id@);
            assert forall|i: int| 0 <= i < r.len() - 1 implies (#[trigger] r[i]).parent_block_id
                is Some && exists|j: int|
                i < j < r.len() && (#[trigger] r[j].id)@ == r[i].parent_block_id->Some_0@ by {
                assert(spec_parent_linked(sub, i, Some(r.last().id@)));
                if spec_opt_view(sub[i].parent_block_id) == Some(r.last().id@) {
                    assert(r[r.len() - 1].id@ == r[i].parent_block_id->Some_0@);
                } else {
                    let j = choose|j: int|
                        i < j < sub.len() && (#[trigger] sub[j].id)@
                            == sub[i].parent_block_id->Some_0@;
                    assert(r[j].id@ == r[i].parent_block_id->Some_0@);
                }
            }
        },
        _ => {
            assert(false);
        },
    }
}

} // verus!
