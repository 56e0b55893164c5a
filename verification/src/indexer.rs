//! The ingestion orchestrator: per-document ingest builds the file
//! and block entities and inserts their bare nodes into the graph;
//! the linking phase afterwards resolves every entity's edges.
//!
//! The store round trips stay with the caller: it submits the
//! entities this module hands back, re-fetches them by identifier
//! once every document is ingested, and hands them to the linking
//! phase. A failed ingest call leaves the graph untouched.

use vstd::prelude::*;

use crate::IndexError;
use crate::block::Block;
use crate::block::BlockBuilder;
use crate::block::spec_built_item;
use crate::block::spec_built_items;
use crate::block::spec_count_item;
use crate::block::spec_count_items;
use crate::file::File;
use crate::file::build_file;
use crate::file::spec_children_of;
use crate::file::spec_file_built;
use crate::graph::GraphNode;
use crate::graph::KnowledgeGraph;
use crate::graph::spec_block_edges;
use crate::graph::spec_file_edges;
use crate::tree::MdNode;
use crate::tree::lemma_items_ok_index;
use crate::tree::spec_item_ok;
use crate::tree::spec_items_ok;

verus! {

/// Every top-level list item among the root children `cs` is sound:
/// the items of every list child, and every bare list item.
pub open spec fn spec_top_ok(cs: Seq<MdNode>, tlen: int) -> bool
    decreases cs,
{
    if cs.len() == 0 {
        true
    } else {
        &&& spec_top_ok(cs.drop_last(), tlen)
        &&& match cs.last() {
            MdNode::List { children, .. } => spec_items_ok(children@, tlen),
            MdNode::ListItem { .. } => spec_item_ok(cs.last(), tlen),
            _ => true,
        }
    }
}

/// The blocks built for the top-level items among the root children
/// `cs`, concatenated in child order, every top-level block without
/// a parent.
pub open spec fn spec_built_top(r: Seq<Block>, cs: Seq<MdNode>, t: Seq<char>, fid: Seq<char>) -> bool
    decreases cs,
{
    if cs.len() == 0 {
        r.len() == 0
    } else {
        match cs.last() {
            MdNode::List { children, .. } => {
                let c = spec_count_items(children@) as int;
                &&& r.len() >= c
                &&& spec_built_top(r.take(r.len() - c), cs.drop_last(), t, fid)
                &&& spec_built_items(r.subrange(r.len() - c, r.len() as int), children@, t, fid, None)
            },
            MdNode::ListItem { .. } => {
                let c = spec_count_item(cs.last()) as int;
                &&& r.len() >= c
                &&& spec_built_top(r.take(r.len() - c), cs.drop_last(), t, fid)
                &&& spec_built_item(r.subrange(r.len() - c, r.len() as int), cs.last(), t, fid, None)
            },
            _ => spec_built_top(r, cs.drop_last(), t, fid),
        }
    }
}

/// Soundness of the top level reaches each of its members.
pub proof fn lemma_top_ok_index(cs: Seq<MdNode>, tlen: int, ci: int)
    requires
        spec_top_ok(cs, tlen),
        0 <= ci < cs.len(),
    ensures
        match cs[ci] {
            MdNode::List { children, .. } => spec_items_ok(children@, tlen),
            MdNode::ListItem { .. } => spec_item_ok(cs[ci], tlen),
            _ => true,
        },
    decreases cs.len(),
{
    if ci < cs.len() - 1 {
        lemma_top_ok_index(cs.drop_last(), tlen, ci);
        assert(cs.drop_last()[ci] == cs[ci]);
    }
}

/// The bare block nodes of a block list, in order.
pub open spec fn spec_block_nodes(bs: Seq<Block>) -> Seq<GraphNode> {
    Seq::new(bs.len(), |i: int| GraphNode::Block { id: bs[i].id })
}

/// The concatenated resolved edges of a list of blocks, or the first
/// error the strict policy raises.
pub open spec fn spec_blocks_edges(ns: Seq<GraphNode>, bs: Seq<Block>) -> Result<
    Seq<(int, int)>,
    IndexError,
>
    decreases bs.len(),
{
    if bs.len() == 0 {
        Ok(Seq::empty())
    } else {
        match (spec_blocks_edges(ns, bs.drop_last()), spec_block_edges(ns, bs.last())) {
            (Ok(es1), Ok(es2)) => Ok(es1 + es2),
            (Err(e), _) => Err(e),
            (_, Err(e)) => Err(e),
        }
    }
}

/// The concatenated resolved edges of a list of files, or the first
/// error the strict policy raises.
pub open spec fn spec_files_edges(ns: Seq<GraphNode>, fs: Seq<File>) -> Result<
    Seq<(int, int)>,
    IndexError,
>
    decreases fs.len(),
{
    if fs.len() == 0 {
        Ok(Seq::empty())
    } else {
        match (spec_files_edges(ns, fs.drop_last()), spec_file_edges(ns, fs.last())) {
            (Ok(es1), Ok(es2)) => Ok(es1 + es2),
            (Err(e), _) => Err(e),
            (_, Err(e)) => Err(e),
        }
    }
}

/// The edges one linking pass adds for the given entities, resolved
/// against the nodes alone: every block's edges in order, then every
/// file's; or the first error the strict policy raises.
pub open spec fn spec_link_result(ns: Seq<GraphNode>, bs: Seq<Block>, fs: Seq<File>) -> Result<
    Seq<(int, int)>,
    IndexError,
> {
    match spec_blocks_edges(ns, bs) {
        Err(e) => Err(e),
        Ok(es1) => match spec_files_edges(ns, fs) {
            Err(e) => Err(e),
            Ok(es2) => Ok(es1 + es2),
        },
    }
}

/// An error at one block fails the whole list with that error, when
/// every block before it succeeds.
proof fn lemma_blocks_edges_err(ns: Seq<GraphNode>, bs: Seq<Block>, i: int, e: IndexError)
    requires
        0 <= i < bs.len(),
        spec_blocks_edges(ns, bs.take(i)) is Ok,
        spec_block_edges(ns, bs[i]) == Err::<Seq<(int, int)>, IndexError>(e),
    ensures
        spec_blocks_edges(ns, bs) == Err::<Seq<(int, int)>, IndexError>(e),
    decreases bs.len(),
{
    if i == bs.len() - 1 {
        assert(bs.drop_last() =~= bs.take(i));
        assert(bs.last() == bs[i]);
    } else {
        assert(bs.drop_last().take(i) =~= bs.take(i));
        assert(bs.drop_last()[i] == bs[i]);
        lemma_blocks_edges_err(ns, bs.drop_last(), i, e);
    }
}

/// An error at one file fails the whole list with that error, when
/// every file before it succeeds.
proof fn lemma_files_edges_err(ns: Seq<GraphNode>, fs: Seq<File>, i: int, e: IndexError)
    requires
        0 <= i < fs.len(),
        spec_files_edges(ns, fs.take(i)) is Ok,
        spec_file_edges(ns, fs[i]) == Err::<Seq<(int, int)>, IndexError>(e),
    ensures
        spec_files_edges(ns, fs) == Err::<Seq<(int, int)>, IndexError>(e),
    decreases fs.len(),
{
    if i == fs.len() - 1 {
        assert(fs.drop_last() =~= fs.take(i));
        assert(fs.last() == fs[i]);
    } else {
        assert(fs.drop_last().take(i) =~= fs.take(i));
        assert(fs.drop_last()[i] == fs[i]);
        lemma_files_edges_err(ns, fs.drop_last(), i, e);
    }
}

/// Drives one ingestion pass: builds entities, inserts their bare
/// nodes, and resolves every entity's edges after the walk.
pub struct Indexer {
    /// The knowledge graph the pass populates.
    pub graph: KnowledgeGraph,
}

impl Indexer {
    /// An indexer over an empty graph.
    pub fn new() -> (r: Indexer)
        ensures
            r.graph.wf(),
            r.graph.spec_nodes() == Seq::<GraphNode>::empty(),
            r.graph.spec_edges() == Seq::<(int, int)>::empty(),
    {
        Indexer { graph: KnowledgeGraph::new() }
    }

    /// Ingests one document: builds its file entity and, when asked,
    /// the blocks of every top-level list item, inserts the file
    /// node and then every block node, and hands the entities back
    /// for the caller to submit to the store. A failure leaves the
    /// graph untouched.
    pub fn index_file(&mut self, path: &str, ast: &MdNode, content: &str, index_blocks: bool) -> (r:
        Result<(File, Vec<Block>), IndexError>)
        requires
            old(self).graph.wf(),
        ensures
            final(self).graph.wf(),
            final(self).graph.spec_edges() == old(self).graph.spec_edges(),
            r is Ok <==> (spec_children_of(*ast) is Some && (index_blocks ==> spec_top_ok(
                spec_children_of(*ast)->Some_0,
                content@.len() as int,
            ))),
            match r {
                Ok(p) => {
                    &&& spec_file_built(p.0, path@, *ast, content@)
                    &&& final(self).graph.spec_nodes() == old(self).graph.spec_nodes().push(
                        GraphNode::File { id: p.0.id, title: Some(p.0.title) },
                    ) + spec_block_nodes(p.1@)
                    &&& (index_blocks ==> spec_built_top(
                        p.1@,
                        spec_children_of(*ast)->Some_0,
                        content@,
                        p.0.id@,
                    ))
                    &&& (!index_blocks ==> p.1@.len() == 0)
                },
                Err(e) => {
                    &&& (e == IndexError::NoChildren || e == IndexError::MissingPosition || e
                        == IndexError::InvalidSpan)
                    &&& final(self).graph.spec_nodes() == old(self).graph.spec_nodes()
                },
            },
    {
        let f = match build_file(path, ast, content) {
            Ok(f) => f,
            Err(e) => {
                return Err(e);
            },
        };
        let blocks = if index_blocks {
            match build_top_blocks(ast, content, f.id.as_str(), Some(path)) {
                Ok(blocks) => blocks,
                Err(e) => {
                    return Err(e);
                },
            }
        } else {
            Vec::new()
        };
        f.add_to_graph(&mut self.graph);
        let ghost mid_nodes = self.graph.spec_nodes();
        let mut j: usize = 0;
        proof {
            assert(mid_nodes + spec_block_nodes(blocks@.take(0)) =~= mid_nodes);
        }
        while j < blocks.len()
            invariant
                0 <= j <= blocks@.len(),
                self.graph.wf(),
                self.graph.spec_edges() == old(self).graph.spec_edges(),
                self.graph.spec_nodes() == mid_nodes + spec_block_nodes(blocks@.take(j as int)),
            decreases blocks@.len() - j,
        {
            blocks[j].add_to_graph(&mut self.graph);
            proof {
                assert(spec_block_nodes(blocks@.take(j + 1)) =~= spec_block_nodes(
                    blocks@.take(j as int),
                ).push(GraphNode::Block { id: blocks@[j as int].id }));
                assert(self.graph.spec_nodes() =~= mid_nodes + spec_block_nodes(
                    blocks@.take(j + 1),
                ));
            }
            j = j + 1;
        }
        proof {
            assert(blocks@.take(blocks@.len() as int) =~= blocks@);
        }
        Ok((f, blocks))
    }

    /// Builds the blocks of every top-level list item of a document
    /// and inserts their bare nodes into the graph. A failure leaves
    /// the graph untouched. A document tree without children yields
    /// no blocks.
    pub fn index_blocks(&mut self, ast: &MdNode, content: &str, file_id: &str, file_path: &str) -> (
        r: Result<Vec<Block>, IndexError>)
        requires
            old(self).graph.wf(),
        ensures
            final(self).graph.wf(),
            final(self).graph.spec_edges() == old(self).graph.spec_edges(),
            r is Ok <==> (spec_children_of(*ast) is None || spec_top_ok(
                spec_children_of(*ast)->Some_0,
                content@.len() as int,
            )),
            match r {
                Ok(blocks) => {
                    &&& (spec_children_of(*ast) matches Some(cs) ==> spec_built_top(
                        blocks@,
                        cs,
                        content@,
                        file_id@,
                    ))
                    &&& (spec_children_of(*ast) is None ==> blocks@.len() == 0)
                    &&& final(self).graph.spec_nodes() == old(self).graph.spec_nodes()
                        + spec_block_nodes(blocks@)
                },
                Err(e) => {
                    &&& (e == IndexError::MissingPosition || e == IndexError::InvalidSpan)
                    &&& final(self).graph.spec_nodes() == old(self).graph.spec_nodes()
                },
            },
    {
        let blocks = match build_top_blocks(ast, content, file_id, Some(file_path)) {
            Ok(blocks) => blocks,
            Err(e) => {
                return Err(e);
            },
        };
        let ghost pre_nodes = self.graph.spec_nodes();
        let mut j: usize = 0;
        proof {
            assert(pre_nodes + spec_block_nodes(blocks@.take(0)) =~= pre_nodes);
        }
        while j < blocks.len()
            invariant
                0 <= j <= blocks@.len(),
                self.graph.wf(),
                self.graph.spec_edges() == old(self).graph.spec_edges(),
                self.graph.spec_nodes() == pre_nodes + spec_block_nodes(blocks@.take(j as int)),
            decreases blocks@.len() - j,
        {
            blocks[j].add_to_graph(&mut self.graph);
            proof {
                assert(spec_block_nodes(blocks@.take(j + 1)) =~= spec_block_nodes(
                    blocks@.take(j as int),
                ).push(GraphNode::Block { id: blocks@[j as int].id }));
                assert(self.graph.spec_nodes() =~= pre_nodes + spec_block_nodes(
                    blocks@.take(j + 1),
                ));
            }
            j = j + 1;
        }
        proof {
            assert(blocks@.take(blocks@.len() as int) =~= blocks@);
        }
        Ok(blocks)
    }

    /// The identifiers of every block node, in node order.
    pub fn block_node_ids(&self) -> (r: Vec<String>)
        ensures
            r.deep_view() == spec_block_ids_from(self.graph.spec_nodes(), 0),
    {
        let n = self.graph.node_count();
        let mut r: Vec<String> = Vec::new();
        let mut i: usize = 0;
        proof {
            assert(r.deep_view() + spec_block_ids_from(self.graph.spec_nodes(), 0)
                =~= spec_block_ids_from(self.graph.spec_nodes(), 0));
        }
        while i < n
            invariant
                0 <= i <= n,
                n == self.graph.spec_nodes().len(),
                spec_block_ids_from(self.graph.spec_nodes(), 0) == r.deep_view()
                    + spec_block_ids_from(self.graph.spec_nodes(), i as int),
            decreases n - i,
        {
            match self.graph.node_at(i) {
                GraphNode::Block { id } => {
                    let ghost pre = r.deep_view();
                    r.push(id.clone());
                    proof {
                        assert(r.deep_view() =~= pre.push(id@));
                    }
                },
                _ => {},
            }
            i = i + 1;
        }
        proof {
            assert(r.deep_view() + spec_block_ids_from(self.graph.spec_nodes(), n as int)
                =~= r.deep_view());
        }
        r
    }

    /// The identifiers of every file node, in node order.
    pub fn file_node_ids(&self) -> (r: Vec<String>)
        ensures
            r.deep_view() == spec_file_ids_from(self.graph.spec_nodes(), 0),
    {
        let n = self.graph.node_count();
        let mut r: Vec<String> = Vec::new();
        let mut i: usize = 0;
        proof {
            assert(r.deep_view() + spec_file_ids_from(self.graph.spec_nodes(), 0)
                =~= spec_file_ids_from(self.graph.spec_nodes(), 0));
        }
        while i < n
            invariant
                0 <= i <= n,
                n == self.graph.spec_nodes().len(),
                spec_file_ids_from(self.graph.spec_nodes(), 0) == r.deep_view()
                    + spec_file_ids_from(self.graph.spec_nodes(), i as int),
            decreases n - i,
        {
            match self.graph.node_at(i) {
                GraphNode::File { id, .. } => {
                    let ghost pre = r.deep_view();
                    r.push(id.clone());
                    proof {
                        assert(r.deep_view() =~= pre.push(id@));
                    }
                },
                _ => {},
            }
            i = i + 1;
        }
        proof {
            assert(r.deep_view() + spec_file_ids_from(self.graph.spec_nodes(), n as int)
                =~= r.deep_view());
        }
        r
    }

    /// The linking phase: adds every given block's edges in order,
    /// then every given file's. Nodes never change, so a second pass
    /// over the same entities adds the same edges again; a missing
    /// node fails the pass with the first entity's error, keeping
    /// the edges added for the entities before it.
    #[verifier::loop_isolation(false)]
    pub fn graph_link(&mut self, blocks: &Vec<Block>, files: &Vec<File>) -> (r: Result<
        (),
        IndexError,
    >)
        requires
            old(self).graph.wf(),
        ensures
            final(self).graph.wf(),
            final(self).graph.spec_nodes() == old(self).graph.spec_nodes(),
            match (r, spec_link_result(old(self).graph.spec_nodes(), blocks@, files@)) {
                (Ok(u), Ok(es)) => final(self).graph.spec_edges() == old(self).graph.spec_edges()
                    + es,
                (Err(e1), Err(e2)) => e1 == e2 && final(self).graph.spec_edges().take(
                    old(self).graph.spec_edges().len() as int,
                ) == old(self).graph.spec_edges(),
                _ => false,
            },
    {
        let ghost ns = self.graph.spec_nodes();
        let ghost e0 = self.graph.spec_edges();
        let mut i: usize = 0;
        proof {
            assert(e0 + Seq::<(int, int)>::empty() =~= e0);
            assert(blocks@.take(0) =~= Seq::<Block>::empty());
        }
        while i < blocks.len()
            invariant
                0 <= i <= blocks@.len(),
                self.graph.wf(),
                ns == self.graph.spec_nodes(),
                e0 == old(self).graph.spec_edges(),
                spec_blocks_edges(ns, blocks@.take(i as int)) matches Ok(es) && self.graph.spec_edges()
                    == e0 + es,
            decreases blocks@.len() - i,
        {
            let ghost pre_es = spec_blocks_edges(ns, blocks@.take(i as int))->Ok_0;
            match blocks[i].add_edges(&mut self.graph) {
                Ok(_) => {
                    proof {
                        assert(blocks@.take(i + 1).drop_last() =~= blocks@.take(i as int));
                        assert(blocks@.take(i + 1).last() == blocks@[i as int]);
                        let cur = spec_block_edges(ns, blocks@[i as int])->Ok_0;
                        assert(spec_blocks_edges(ns, blocks@.take(i + 1)) == Ok::<
                            Seq<(int, int)>,
                            IndexError,
                        >(pre_es + cur));
                        assert(self.graph.spec_edges() =~= e0 + (pre_es + cur));
                    }
                },
                Err(e) => {
                    proof {
                        lemma_blocks_edges_err(ns, blocks@, i as int, e);
                        assert(self.graph.spec_edges().take(e0.len() as int) =~= e0);
                    }
                    return Err(e);
                },
            }
            i = i + 1;
        }
        proof {
            assert(blocks@.take(blocks@.len() as int) =~= blocks@);
            assert(files@.take(0) =~= Seq::<File>::empty());
        }
        let ghost bes = spec_blocks_edges(ns, blocks@)->Ok_0;
        let mut j: usize = 0;
        while j < files.len()
            invariant
                0 <= j <= files@.len(),
                self.graph.wf(),
                ns == self.graph.spec_nodes(),
                e0 == old(self).graph.spec_edges(),
                bes == spec_blocks_edges(ns, blocks@)->Ok_0,
                spec_blocks_edges(ns, blocks@) is Ok,
                spec_files_edges(ns, files@.take(j as int)) matches Ok(es) && self.graph.spec_edges()
                    == e0 + bes + es,
            decreases files@.len() - j,
        {
            let ghost pre_es = spec_files_edges(ns, files@.take(j as int))->Ok_0;
            match files[j].add_edges(&mut self.graph) {
                Ok(_) => {
                    proof {
                        assert(files@.take(j + 1).drop_last() =~= files@.take(j as int));
                        assert(files@.take(j + 1).last() == files@[j as int]);
                        let cur = spec_file_edges(ns, files@[j as int])->Ok_0;
                        assert(spec_files_edges(ns, files@.take(j + 1)) == Ok::<
                            Seq<(int, int)>,
                            IndexError,
                        >(pre_es + cur));
                        assert(self.graph.spec_edges() =~= e0 + bes + (pre_es + cur));
                    }
                },
                Err(e) => {
                    proof {
                        lemma_files_edges_err(ns, files@, j as int, e);
                        assert(self.graph.spec_edges().take(e0.len() as int) =~= e0);
                    }
                    return Err(e);
                },
            }
            j = j + 1;
        }
        proof {
            assert(files@.take(files@.len() as int) =~= files@);
            let fes = spec_files_edges(ns, files@)->Ok_0;
            assert(self.graph.spec_edges() =~= e0 + (bes + fes));
        }
        Ok(())
    }
}

/// The identifiers of the block nodes at or after `i`, in order.
pub open spec fn spec_block_ids_from(ns: Seq<GraphNode>, i: int) -> Seq<Seq<char>>
    decreases ns.len() - i,
{
    if i < 0 || i >= ns.len() {
        Seq::empty()
    } else {
        (match ns[i] {
            GraphNode::Block { id } => seq![id@],
            _ => Seq::<Seq<char>>::empty(),
        }) + spec_block_ids_from(ns, i + 1)
    }
}

/// The identifiers of the file nodes at or after `i`, in order.
pub open spec fn spec_file_ids_from(ns: Seq<GraphNode>, i: int) -> Seq<Seq<char>>
    decreases ns.len() - i,
{
    if i < 0 || i >= ns.len() {
        Seq::empty()
    } else {
        (match ns[i] {
            GraphNode::File { id, .. } => seq![id@],
            _ => Seq::<Seq<char>>::empty(),
        }) + spec_file_ids_from(ns, i + 1)
    }
}

/// A builder for one top-level item, carrying the owning file's
/// identifier and path.
fn top_builder(file_id: &str, file_path: Option<&str>) -> (r: BlockBuilder)
    ensures
        r.file_id matches Some(f) && f@ == file_id@,
        r.parent_block_id is None,
{
    let b = BlockBuilder::new().with_file_id(file_id.to_owned());
    match file_path {
        Some(p) => b.with_file_path(p.to_owned()),
        None => b,
    }
}

/// Builds the blocks of every top-level list item: the items of each
/// list child of the root, and each bare list item child, in order.
#[verifier::loop_isolation(false)]
fn build_top_blocks(ast: &MdNode, content: &str, file_id: &str, file_path: Option<&str>) -> (r:
    Result<Vec<Block>, IndexError>)
    ensures
        r is Ok <==> (spec_children_of(*ast) is None || spec_top_ok(
            spec_children_of(*ast)->Some_0,
            content@.len() as int,
        )),
        match r {
            Ok(blocks) => {
                &&& (spec_children_of(*ast) matches Some(cs) ==> spec_built_top(
                    blocks@,
                    cs,
                    content@,
                    file_id@,
                ))
                &&& (spec_children_of(*ast) is None ==> blocks@.len() == 0)
            },
            Err(e) => e == IndexError::MissingPosition || e == IndexError::InvalidSpan,
        },
{
    let ghost tlen = content@.len() as int;
    let cs: &Vec<MdNode> = match ast {
        MdNode::Root { children } => children,
        MdNode::List { children, .. } => children,
        MdNode::ListItem { children, .. } => children,
        MdNode::Paragraph { children } => children,
        MdNode::Text { .. } => {
            return Ok(Vec::new());
        },
        MdNode::Other => {
            return Ok(Vec::new());
        },
    };
    let mut blocks: Vec<Block> = Vec::new();
    let mut ci: usize = 0;
    proof {
        assert(cs@.take(0) =~= Seq::<MdNode>::empty());
    }
    while ci < cs.len()
        invariant
            0 <= ci <= cs@.len(),
            cs@ == spec_children_of(*ast)->Some_0,
            spec_children_of(*ast) is Some,
            spec_built_top(blocks@, cs@.take(ci as int), content@, file_id@),
            spec_top_ok(cs@.take(ci as int), tlen),
            tlen == content@.len() as int,
        decreases cs@.len() - ci,
    {
        let child = &cs[ci];
        match child {
            MdNode::List { children: items, .. } => {
                let ghost outer_len = blocks@.len() as int;
                let mut gi: usize = 0;
                proof {
                    assert(items@.take(0) =~= Seq::<MdNode>::empty());
                    assert(blocks@.subrange(outer_len, blocks@.len() as int) =~= Seq::<
                        Block,
                    >::empty());
                    assert(blocks@.take(outer_len) =~= blocks@);
                }
                while gi < items.len()
                    invariant
                        0 <= gi <= items@.len(),
                        0 <= ci < cs@.len(),
                        0 <= outer_len <= blocks@.len(),
                        spec_built_top(
                            blocks@.take(outer_len),
                            cs@.take(ci as int),
                            content@,
                            file_id@,
                        ),
                        spec_top_ok(cs@.take(ci as int), tlen),
                        spec_built_items(
                            blocks@.subrange(outer_len, blocks@.len() as int),
                            items@.take(gi as int),
                            content@,
                            file_id@,
                            None,
                        ),
                        spec_items_ok(items@.take(gi as int), tlen),
                    decreases items@.len() - gi,
                {
                    let g = &items[gi];
                    match g {
                        MdNode::ListItem { .. } => {
                            let sub = top_builder(file_id, file_path).build(content, g);
                            match sub {
                                Ok(mut sub_blocks) => {
                                    let ghost pre = blocks@;
                                    let ghost sub_view = sub_blocks@;
                                    blocks.append(&mut sub_blocks);
                                    proof {
                                        let suff_pre = pre.subrange(outer_len, pre.len() as int);
                                        assert(blocks@.take(outer_len) =~= pre.take(outer_len));
                                        crate::block::lemma_built_items_snoc_item(
                                            suff_pre,
                                            sub_view,
                                            items@.take(gi as int),
                                            items@[gi as int],
                                            content@,
                                            file_id@,
                                            None,
                                        );
                                        assert(blocks@.subrange(outer_len, blocks@.len() as int)
                                            =~= suff_pre + sub_view);
                                        assert(items@.take(gi + 1) =~= items@.take(gi as int).push(
                                            items@[gi as int],
                                        ));
                                        assert(items@.take(gi + 1).drop_last() =~= items@.take(
                                            gi as int,
                                        ));
                                        assert(items@.take(gi + 1).last() == items@[gi as int]);
                                        assert(spec_items_ok(items@.take(gi + 1), tlen));
                                    }
                                },
                                Err(e) => {
                                    proof {
                                        if spec_top_ok(cs@, tlen) {
                                            lemma_top_ok_index(cs@, tlen, ci as int);
                                            lemma_items_ok_index(items@, tlen, gi as int);
                                            assert(false);
                                        }
                                    }
                                    return Err(e);
                                },
                            }
                        },
                        _ => {
                            proof {
                                crate::block::lemma_built_items_snoc_other(
                                    blocks@.subrange(outer_len, blocks@.len() as int),
                                    items@.take(gi as int),
                                    items@[gi as int],
                                    content@,
                                    file_id@,
                                    None,
                                );
                                assert(items@.take(gi + 1) =~= items@.take(gi as int).push(
                                    items@[gi as int],
                                ));
                                assert(items@.take(gi + 1).drop_last() =~= items@.take(gi as int));
                                assert(items@.take(gi + 1).last() == items@[gi as int]);
                            }
                        },
                    }
                    gi = gi + 1;
                }
                proof {
                    assert(items@.take(items@.len() as int) =~= items@);
                    let cs1 = cs@.take(ci + 1);
                    assert(cs1.drop_last() =~= cs@.take(ci as int));
                    assert(cs1.last() == cs@[ci as int]);
                    assert(cs@[ci as int] == *child);
                    assert((*child)->List_children == *items);
                    crate::block::lemma_built_items_len(
                        blocks@.subrange(outer_len, blocks@.len() as int),
                        items@,
                        content@,
                        file_id@,
                        None,
                    );
                    assert(blocks@.take(blocks@.len() - spec_count_items(items@)) =~= blocks@.take(
                        outer_len,
                    ));
                    assert(blocks@.subrange(
                        blocks@.len() - spec_count_items(items@),
                        blocks@.len() as int,
                    ) =~= blocks@.subrange(outer_len, blocks@.len() as int));
                    assert(spec_built_top(blocks@, cs1, content@, file_id@));
                    assert(spec_top_ok(cs1, tlen));
                }
            },
            MdNode::ListItem { .. } => {
                let sub = top_builder(file_id, file_path).build(content, child);
                match sub {
                    Ok(mut sub_blocks) => {
                        let ghost pre = blocks@;
                        let ghost sub_view = sub_blocks@;
                        blocks.append(&mut sub_blocks);
                        proof {
                            let cs1 = cs@.take(ci + 1);
                            assert(cs1.drop_last() =~= cs@.take(ci as int));
                            assert(cs1.last() == cs@[ci as int]);
                            assert(cs@[ci as int] == *child);
                            crate::block::lemma_built_item_len(
                                sub_view,
                                *child,
                                content@,
                                file_id@,
                                None,
                            );
                            assert(blocks@.take(blocks@.len() - spec_count_item(*child)) =~= pre);
                            assert(blocks@.subrange(
                                blocks@.len() - spec_count_item(*child),
                                blocks@.len() as int,
                            ) =~= sub_view);
                            assert(spec_built_top(blocks@, cs1, content@, file_id@));
                            assert(spec_top_ok(cs1, tlen));
                        }
                    },
                    Err(e) => {
                        proof {
                            if spec_top_ok(cs@, tlen) {
                                lemma_top_ok_index(cs@, tlen, ci as int);
                                assert(false);
                            }
                        }
                        return Err(e);
                    },
                }
            },
            _ => {
                proof {
                    let cs1 = cs@.take(ci + 1);
                    assert(cs1.drop_last() =~= cs@.take(ci as int));
                    assert(cs1.last() == cs@[ci as int]);
                    assert(cs@[ci as int] == *child);
                }
            },
        }
        ci = ci + 1;
    }
    proof {
        assert(cs@.take(cs@.len() as int) =~= cs@);
    }
    Ok(blocks)
}

/// Edge resolution reads the nodes alone, and the linking phase
/// leaves the nodes unchanged, so a second linking pass over the
/// same entities adds exactly the same edge list again: running the
/// linking phase twice doubles every resolved edge. Duplicate edges
/// are kept by design.
pub proof fn lemma_second_link_pass_duplicates(
    e0: Seq<(int, int)>,
    ns: Seq<GraphNode>,
    bs: Seq<Block>,
    fs: Seq<File>,
)
    requires
        spec_link_result(ns, bs, fs) is Ok,
    ensures
        ({
            let es = spec_link_result(ns, bs, fs)->Ok_0;
            let after_first = e0 + es;
            let after_second = after_first + es;
            &&& after_second == e0 + es + es
            &&& after_second.len() == e0.len() + 2 * es.len()
        }),
{
}

} // verus!
