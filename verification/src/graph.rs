//! The knowledge graph: an undirected graph over file and block
//! nodes, held as an arena of nodes and a list of edges, with the
//! edge-resolution that links every entity after ingestion.
//!
//! Resolution is strict: a tag or wikilink naming a page title with
//! no file node, or a parent block with no node, fails the entity,
//! and a failed entity adds none of its edges.

use vstd::prelude::*;

use crate::IndexError;
use crate::block::Block;
use crate::block::spec_opt_view;
use crate::file::File;
use crate::strutil::str_eq;

verus! {

/// One node of the knowledge graph.
#[derive(Debug, PartialEq, Clone)]
pub enum GraphNode {
    /// A file node, resolvable by identifier or by title.
    File { id: String, title: Option<String> },
    /// A block node, resolvable by identifier.
    Block { id: String },
}

/// The undirected knowledge graph: nodes addressed by insertion
/// index, edges as index pairs, duplicates kept.
#[derive(Debug)]
pub struct KnowledgeGraph {
    nodes: Vec<GraphNode>,
    edges: Vec<(usize, usize)>,
}

/// The first index at or after `i` of a block node with identifier
/// `id`.
pub open spec fn spec_find_block_idx(ns: Seq<GraphNode>, id: Seq<char>, i: int) -> Option<int>
    decreases ns.len() - i,
{
    if i < 0 || i >= ns.len() {
        None
    } else if ns[i] matches GraphNode::Block { id: bid } && bid@ == id {
        Some(i)
    } else {
        spec_find_block_idx(ns, id, i + 1)
    }
}

/// The first index at or after `i` of a file node with identifier
/// `id`.
pub open spec fn spec_find_file_idx_by_id(ns: Seq<GraphNode>, id: Seq<char>, i: int) -> Option<int>
    decreases ns.len() - i,
{
    if i < 0 || i >= ns.len() {
        None
    } else if ns[i] matches GraphNode::File { id: fid, .. } && fid@ == id {
        Some(i)
    } else {
        spec_find_file_idx_by_id(ns, id, i + 1)
    }
}

/// The first index at or after `i` of a file node carrying title
/// `title`.
pub open spec fn spec_find_file_idx_by_title(ns: Seq<GraphNode>, title: Seq<char>, i: int) -> Option<
    int,
>
    decreases ns.len() - i,
{
    if i < 0 || i >= ns.len() {
        None
    } else if ns[i] matches GraphNode::File { title: Some(t), .. } && t@ == title {
        Some(i)
    } else {
        spec_find_file_idx_by_title(ns, title, i + 1)
    }
}

/// A found node index lies in range.
pub proof fn lemma_find_in_range(ns: Seq<GraphNode>, key: Seq<char>, i: int)
    requires
        0 <= i,
    ensures
        spec_find_block_idx(ns, key, i) matches Some(j) ==> i <= j < ns.len(),
        spec_find_file_idx_by_id(ns, key, i) matches Some(j) ==> i <= j < ns.len(),
        spec_find_file_idx_by_title(ns, key, i) matches Some(j) ==> i <= j < ns.len(),
    decreases ns.len() - i,
{
    if i < ns.len() {
        lemma_find_in_range(ns, key, i + 1);
    }
}

/// The edges that resolve a list of page titles against the graph's
/// nodes: one edge from each title's file node to `own`, in title
/// order; absent when some title has no file node.
pub open spec fn spec_title_edges(ns: Seq<GraphNode>, titles: Seq<Seq<char>>, own: int) -> Option<
    Seq<(int, int)>,
>
    decreases titles.len(),
{
    if titles.len() == 0 {
        Some(Seq::empty())
    } else {
        match (
            spec_title_edges(ns, titles.drop_last(), own),
            spec_find_file_idx_by_title(ns, titles.last(), 0),
        ) {
            (Some(es), Some(ti)) => Some(es.push((ti, own))),
            _ => None,
        }
    }
}

/// A title with no file node fails the whole edge list.
pub proof fn lemma_title_edges_missing(ns: Seq<GraphNode>, titles: Seq<Seq<char>>, own: int, i: int)
    requires
        0 <= i < titles.len(),
        spec_find_file_idx_by_title(ns, titles[i], 0) is None,
    ensures
        spec_title_edges(ns, titles, own) is None,
    decreases titles.len(),
{
    if i < titles.len() - 1 {
        lemma_title_edges_missing(ns, titles.drop_last(), own, i);
    }
}

/// The index pairs of resolved edges, as mathematical integers.
pub open spec fn spec_edge_views(es: Seq<(usize, usize)>) -> Seq<(int, int)> {
    Seq::new(es.len(), |i: int| (es[i].0 as int, es[i].1 as int))
}

/// The edges a block resolves to: its parent edge, then one edge per
/// tag, then one per wikilink, each ending at the block's own node;
/// or the error the strict policy raises.
pub open spec fn spec_block_edges(ns: Seq<GraphNode>, b: Block) -> Result<
    Seq<(int, int)>,
    IndexError,
> {
    match spec_find_block_idx(ns, b.id@, 0) {
        None => Err(IndexError::MissingNode),
        Some(own) => {
            let parent_es = match spec_opt_view(b.parent_block_id) {
                None => Some(Seq::<(int, int)>::empty()),
                Some(p) => match spec_find_block_idx(ns, p, 0) {
                    Some(pi) => Some(seq![(pi, own)]),
                    None => None,
                },
            };
            match parent_es {
                None => Err(IndexError::MissingParent),
                Some(pes) => match spec_title_edges(ns, b.tags.deep_view(), own) {
                    None => Err(IndexError::MissingTagTarget),
                    Some(tes) => match spec_title_edges(ns, b.wikilinks.deep_view(), own) {
                        None => Err(IndexError::MissingWikilinkTarget),
                        Some(wes) => Ok(pes + tes + wes),
                    },
                },
            }
        },
    }
}

/// The edges a file resolves to: one edge per tag, then one per
/// wikilink, each ending at the file's own node; or the error the
/// strict policy raises.
pub open spec fn spec_file_edges(ns: Seq<GraphNode>, f: File) -> Result<
    Seq<(int, int)>,
    IndexError,
> {
    match spec_find_file_idx_by_id(ns, f.id@, 0) {
        None => Err(IndexError::MissingNode),
        Some(own) => match spec_title_edges(ns, f.tags.deep_view(), own) {
            None => Err(IndexError::MissingTagTarget),
            Some(tes) => match spec_title_edges(ns, f.wikilinks.deep_view(), own) {
                None => Err(IndexError::MissingWikilinkTarget),
                Some(wes) => Ok(tes + wes),
            },
        },
    }
}

impl KnowledgeGraph {
    /// The nodes, by insertion index.
    pub closed spec fn spec_nodes(&self) -> Seq<GraphNode> {
        self.nodes@
    }

    /// The edges, as index pairs in insertion order.
    pub closed spec fn spec_edges(&self) -> Seq<(int, int)> {
        Seq::new(self.edges@.len(), |i: int| (self.edges@[i].0 as int, self.edges@[i].1 as int))
    }

    /// Every edge joins two existing nodes.
    pub open spec fn wf(&self) -> bool {
        forall|i: int|
            0 <= i < self.spec_edges().len() ==> 0 <= (#[trigger] self.spec_edges()[i]).0
                < self.spec_nodes().len() && 0 <= self.spec_edges()[i].1 < self.spec_nodes().len()
    }

    /// An empty graph.
    pub fn new() -> (r: KnowledgeGraph)
        ensures
            r.wf(),
            r.spec_nodes() == Seq::<GraphNode>::empty(),
            r.spec_edges() == Seq::<(int, int)>::empty(),
    {
        let r = KnowledgeGraph { nodes: Vec::new(), edges: Vec::new() };
        proof {
            assert(r.spec_nodes() =~= Seq::<GraphNode>::empty());
            assert(r.spec_edges() =~= Seq::<(int, int)>::empty());
        }
        r
    }

    /// Inserts a bare node and hands back its index.
    pub fn add_node(&mut self, n: GraphNode) -> (idx: usize)
        requires
            old(self).wf(),
        ensures
            final(self).wf(),
            final(self).spec_nodes() == old(self).spec_nodes().push(n),
            final(self).spec_edges() == old(self).spec_edges(),
            idx == old(self).spec_nodes().len(),
    {
        let idx = self.nodes.len();
        self.nodes.push(n);
        proof {
            assert(self.spec_edges() =~= old(self).spec_edges());
        }
        idx
    }

    /// How many nodes the graph holds.
    pub fn node_count(&self) -> (r: usize)
        ensures
            r == self.spec_nodes().len(),
    {
        self.nodes.len()
    }

    /// How many edges the graph holds.
    pub fn edge_count(&self) -> (r: usize)
        ensures
            r == self.spec_edges().len(),
    {
        self.edges.len()
    }

    /// The node at an index.
    pub fn node_at(&self, i: usize) -> (r: &GraphNode)
        requires
            i < self.spec_nodes().len(),
        ensures
            *r == self.spec_nodes()[i as int],
    {
        &self.nodes[i]
    }

    /// The edge at an index.
    pub fn edge_at(&self, i: usize) -> (r: (usize, usize))
        requires
            i < self.spec_edges().len(),
        ensures
            r.0 as int == self.spec_edges()[i as int].0,
            r.1 as int == self.spec_edges()[i as int].1,
    {
        self.edges[i]
    }

    /// Joins two existing nodes with an edge; duplicates are kept.
    pub fn add_edge(&mut self, a: usize, b: usize)
        requires
            old(self).wf(),
            a < old(self).spec_nodes().len(),
            b < old(self).spec_nodes().len(),
        ensures
            final(self).wf(),
            final(self).spec_nodes() == old(self).spec_nodes(),
            final(self).spec_edges() == old(self).spec_edges().push((a as int, b as int)),
    {
        self.edges.push((a, b));
        proof {
            assert(self.spec_edges() =~= old(self).spec_edges().push((a as int, b as int)));
        }
    }

    /// Finds the first block node with the given identifier.
    pub fn find_block_index(&self, id: &str) -> (r: Option<usize>)
        ensures
            match (r, spec_find_block_idx(self.spec_nodes(), id@, 0)) {
                (Some(a), Some(b)) => a as int == b && a < self.spec_nodes().len(),
                (None, None) => true,
                _ => false,
            },
    {
        let n = self.nodes.len();
        let mut i: usize = 0;
        while i < n
            invariant
                0 <= i <= n,
                n == self.spec_nodes().len(),
                spec_find_block_idx(self.spec_nodes(), id@, 0) == spec_find_block_idx(
                    self.spec_nodes(),
                    id@,
                    i as int,
                ),
            decreases n - i,
        {
            match &self.nodes[i] {
                GraphNode::Block { id: bid } => {
                    if str_eq(bid.as_str(), id) {
                        return Some(i);
                    }
                },
                _ => {},
            }
            i = i + 1;
        }
        None
    }

    /// Finds the first file node with the given identifier.
    pub fn find_file_index_by_id(&self, id: &str) -> (r: Option<usize>)
        ensures
            match (r, spec_find_file_idx_by_id(self.spec_nodes(), id@, 0)) {
                (Some(a), Some(b)) => a as int == b && a < self.spec_nodes().len(),
                (None, None) => true,
                _ => false,
            },
    {
        let n = self.nodes.len();
        let mut i: usize = 0;
        while i < n
            invariant
                0 <= i <= n,
                n == self.spec_nodes().len(),
                spec_find_file_idx_by_id(self.spec_nodes(), id@, 0) == spec_find_file_idx_by_id(
                    self.spec_nodes(),
                    id@,
                    i as int,
                ),
            decreases n - i,
        {
            match &self.nodes[i] {
                GraphNode::File { id: fid, .. } => {
                    if str_eq(fid.as_str(), id) {
                        return Some(i);
                    }
                },
                _ => {},
            }
            i = i + 1;
        }
        None
    }

    /// Finds the first file node carrying the given title.
    pub fn find_file_index_by_title(&self, title: &str) -> (r: Option<usize>)
        ensures
            match (r, spec_find_file_idx_by_title(self.spec_nodes(), title@, 0)) {
                (Some(a), Some(b)) => a as int == b && a < self.spec_nodes().len(),
                (None, None) => true,
                _ => false,
            },
    {
        let n = self.nodes.len();
        let mut i: usize = 0;
        while i < n
            invariant
                0 <= i <= n,
                n == self.spec_nodes().len(),
                spec_find_file_idx_by_title(self.spec_nodes(), title@, 0)
                    == spec_find_file_idx_by_title(self.spec_nodes(), title@, i as int),
            decreases n - i,
        {
            match &self.nodes[i] {
                GraphNode::File { title: Some(t), .. } => {
                    if str_eq(t.as_str(), title) {
                        return Some(i);
                    }
                },
                _ => {},
            }
            i = i + 1;
        }
        None
    }

    /// Resolves a list of page titles to edges ending at `own`,
    /// without touching the graph.
    fn resolve_title_edges(&self, titles: &Vec<String>, own: usize, missing: IndexError) -> (r:
        Result<Vec<(usize, usize)>, IndexError>)
        requires
            own < self.spec_nodes().len(),
        ensures
            match (r, spec_title_edges(self.spec_nodes(), titles.deep_view(), own as int)) {
                (Ok(es), Some(ses)) => spec_edge_views(es@) == ses && forall|i: int|
                    0 <= i < es@.len() ==> (#[trigger] es@[i]).0 < self.spec_nodes().len()
                        && es@[i].1 == own,
                (Err(e), None) => e == missing,
                _ => false,
            },
    {
        let ghost ns = self.spec_nodes();
        let ghost tv = titles.deep_view();
        let mut es: Vec<(usize, usize)> = Vec::new();
        let mut i: usize = 0;
        proof {
            assert(tv.take(0) =~= Seq::<Seq<char>>::empty());
        }
        while i < titles.len()
            invariant
                0 <= i <= titles.len(),
                tv.len() == titles@.len(),
                tv == titles.deep_view(),
                ns == self.spec_nodes(),
                own < ns.len(),
                spec_title_edges(ns, tv.take(i as int), own as int) == Some(spec_edge_views(es@)),
                forall|k: int|
                    0 <= k < es@.len() ==> (#[trigger] es@[k]).0 < ns.len() && es@[k].1 == own,
            decreases titles.len() - i,
        {
            proof {
                assert(tv[i as int] == titles@[i as int]@);
            }
            match self.find_file_index_by_title(titles[i].as_str()) {
                Some(ti) => {
                    let ghost pre = es@;
                    es.push((ti, own));
                    proof {
                        assert(tv.take(i + 1).drop_last() =~= tv.take(i as int));
                        assert(tv.take(i + 1).last() == tv[i as int]);
                        assert(spec_edge_views(es@) =~= spec_edge_views(pre).push(
                            (ti as int, own as int),
                        ));
                    }
                },
                None => {
                    proof {
                        lemma_title_edges_missing(ns, tv, own as int, i as int);
                    }
                    return Err(missing);
                },
            }
            i = i + 1;
        }
        proof {
            assert(tv.take(tv.len() as int) =~= tv);
        }
        Ok(es)
        
    }

    /// Appends resolved edges to the graph.
    fn push_edges(&mut self, es: &Vec<(usize, usize)>)
        requires
            old(self).wf(),
            forall|i: int|
                0 <= i < es@.len() ==> (#[trigger] es@[i]).0 < old(self).spec_nodes().len()
                    && es@[i].1 < old(self).spec_nodes().len(),
        ensures
            final(self).wf(),
            final(self).spec_nodes() == old(self).spec_nodes(),
            final(self).spec_edges() == old(self).spec_edges() + spec_edge_views(es@),
    {
        let mut j: usize = 0;
        proof {
            assert(self.spec_edges() + spec_edge_views(es@.take(0)) =~= self.spec_edges());
        }
        while j < es.len()
            invariant
                0 <= j <= es@.len(),
                self.wf(),
                forall|i: int|
                    0 <= i < es@.len() ==> (#[trigger] es@[i]).0 < self.spec_nodes().len()
                        && es@[i].1 < self.spec_nodes().len(),
                self.spec_nodes() == old(self).spec_nodes(),
                self.spec_edges() == old(self).spec_edges() + spec_edge_views(es@.take(j as int)),
            decreases es@.len() - j,
        {
            let e = es[j];
            self.add_edge(e.0, e.1);
            proof {
                assert(spec_edge_views(es@.take(j + 1)) =~= spec_edge_views(
                    es@.take(j as int),
                ).push((es@[j as int].0 as int, es@[j as int].1 as int)));
                assert(self.spec_edges() =~= old(self).spec_edges() + spec_edge_views(
                    es@.take(j + 1),
                ));
            }
            j = j + 1;
        }
        proof {
            assert(es@.take(es@.len() as int) =~= es@);
        }
    }
}

impl Block {
    /// Inserts this block's bare node into the graph. Adds no edges.
    pub fn add_to_graph(&self, graph: &mut KnowledgeGraph)
        requires
            old(graph).wf(),
        ensures
            final(graph).wf(),
            final(graph).spec_nodes() == old(graph).spec_nodes().push(
                GraphNode::Block { id: self.id },
            ),
            final(graph).spec_edges() == old(graph).spec_edges(),
    {
        graph.add_node(GraphNode::Block { id: self.id.clone() });
    }

    /// Adds this block's edges to the graph: parent first, then tag
    /// targets, then wikilink targets. Under the strict policy a
    /// missing node fails the block and the graph keeps exactly its
    /// old edges.
    pub fn add_edges(&self, graph: &mut KnowledgeGraph) -> (r: Result<(), IndexError>)
        requires
            old(graph).wf(),
        ensures
            final(graph).wf(),
            final(graph).spec_nodes() == old(graph).spec_nodes(),
            match (r, spec_block_edges(old(graph).spec_nodes(), *self)) {
                (Ok(u), Ok(es)) => final(graph).spec_edges() == old(graph).spec_edges() + es,
                (Err(e1), Err(e2)) => e1 == e2 && final(graph).spec_edges() == old(
                    graph,
                ).spec_edges(),
                _ => false,
            },
    {
        let ghost ns = graph.spec_nodes();
        let own = match graph.find_block_index(self.id.as_str()) {
            Some(own) => own,
            None => {
                return Err(IndexError::MissingNode);
            },
        };
        let mut resolved: Vec<(usize, usize)> = Vec::new();
        match &self.parent_block_id {
            Some(p) => {
                match graph.find_block_index(p.as_str()) {
                    Some(pi) => {
                        proof {
                            lemma_find_in_range(ns, p@, 0);
                        }
                        resolved.push((pi, own));
                    },
                    None => {
                        return Err(IndexError::MissingParent);
                    },
                }
            },
            None => {},
        }
        let tag_edges = match graph.resolve_title_edges(
            &self.tags,
            own,
            IndexError::MissingTagTarget,
        ) {
            Ok(es) => es,
            Err(e) => {
                return Err(e);
            },
        };
        let wl_edges = match graph.resolve_title_edges(
            &self.wikilinks,
            own,
            IndexError::MissingWikilinkTarget,
        ) {
            Ok(es) => es,
            Err(e) => {
                return Err(e);
            },
        };
        let ghost pre_edges = graph.spec_edges();
        let ghost spec_es = spec_block_edges(ns, *self)->Ok_0;
        proof {
            match spec_opt_view(self.parent_block_id) {
                None => {
                    assert(spec_edge_views(resolved@) =~= Seq::<(int, int)>::empty());
                },
                Some(p) => {
                    let pi = spec_find_block_idx(ns, p, 0)->Some_0;
                    assert(spec_edge_views(resolved@) =~= seq![(pi, own as int)]);
                },
            }
        }
        graph.push_edges(&resolved);
        graph.push_edges(&tag_edges);
        graph.push_edges(&wl_edges);
        proof {
            assert(spec_es =~= spec_edge_views(resolved@) + spec_edge_views(tag_edges@)
                + spec_edge_views(wl_edges@));
            assert(graph.spec_edges() =~= pre_edges + spec_es);
        }
        Ok(())
    }
}

impl File {
    /// Inserts this file's bare node, carrying its title, into the
    /// graph. Adds no edges.
    pub fn add_to_graph(&self, graph: &mut KnowledgeGraph)
        requires
            old(graph).wf(),
        ensures
            final(graph).wf(),
            final(graph).spec_nodes() == old(graph).spec_nodes().push(
                GraphNode::File { id: self.id, title: Some(self.title) },
            ),
            final(graph).spec_edges() == old(graph).spec_edges(),
    {
        graph.add_node(GraphNode::File { id: self.id.clone(), title: Some(self.title.clone()) });
    }

    /// Adds this file's edges to the graph: tag targets first, then
    /// wikilink targets. Under the strict policy a missing node
    /// fails the file and the graph keeps exactly its old edges.
    pub fn add_edges(&self, graph: &mut KnowledgeGraph) -> (r: Result<(), IndexError>)
        requires
            old(graph).wf(),
        ensures
            final(graph).wf(),
            final(graph).spec_nodes() == old(graph).spec_nodes(),
            match (r, spec_file_edges(old(graph).spec_nodes(), *self)) {
                (Ok(u), Ok(es)) => final(graph).spec_edges() == old(graph).spec_edges() + es,
                (Err(e1), Err(e2)) => e1 == e2 && final(graph).spec_edges() == old(
                    graph,
                ).spec_edges(),
                _ => false,
            },
    {
        let ghost ns = graph.spec_nodes();
        let own = match graph.find_file_index_by_id(self.id.as_str()) {
            Some(own) => own,
            None => {
                return Err(IndexError::MissingNode);
            },
        };
        let tag_edges = match graph.resolve_title_edges(
            &self.tags,
            own,
            IndexError::MissingTagTarget,
        ) {
            Ok(es) => es,
            Err(e) => {
                return Err(e);
            },
        };
        let wl_edges = match graph.resolve_title_edges(
            &self.wikilinks,
            own,
            IndexError::MissingWikilinkTarget,
        ) {
            Ok(es) => es,
            Err(e) => {
                return Err(e);
            },
        };
        let ghost pre_edges = graph.spec_edges();
        let ghost spec_es = spec_file_edges(ns, *self)->Ok_0;
        graph.push_edges(&tag_edges);
        graph.push_edges(&wl_edges);
        proof {
            assert(spec_es =~= spec_edge_views(tag_edges@) + spec_edge_views(wl_edges@));
            assert(graph.spec_edges() =~= pre_edges + spec_es);
        }
        Ok(())
    }
}

/// Under the strict policy, a block carrying a tag or wikilink whose
/// title no file node bears resolves to an error, never to a partial
/// edge set.
pub proof fn lemma_block_missing_target_fails(ns: Seq<GraphNode>, b: Block)
    requires
        (exists|i: int|
            0 <= i < b.tags.deep_view().len() && spec_find_file_idx_by_title(
                ns,
                #[trigger] b.tags.deep_view()[i],
                0,
            ) is None) || (exists|i: int|
            0 <= i < b.wikilinks.deep_view().len() && spec_find_file_idx_by_title(
                ns,
                #[trigger] b.wikilinks.deep_view()[i],
                0,
            ) is None),
    ensures
        spec_block_edges(ns, b) is Err,
{
    if spec_find_block_idx(ns, b.id@, 0) is Some {
        let own = spec_find_block_idx(ns, b.id@, 0)->Some_0;
        if exists|i: int|
            0 <= i < b.tags.deep_view().len() && spec_find_file_idx_by_title(
                ns,
                #[trigger] b.tags.deep_view()[i],
                0,
            ) is None {
            let i = choose|i: int|
                0 <= i < b.tags.deep_view().len() && spec_find_file_idx_by_title(
                    ns,
                    #[trigger] b.tags.deep_view()[i],
                    0,
                ) is None;
            lemma_title_edges_missing(ns, b.tags.deep_view(), own, i);
        } else {
            let i = choose|i: int|
                0 <= i < b.wikilinks.deep_view().len() && spec_find_file_idx_by_title(
                    ns,
                    #[trigger] b.wikilinks.deep_view()[i],
                    0,
                ) is None;
            lemma_title_edges_missing(ns, b.wikilinks.deep_view(), own, i);
        }
    }
}

/// Under the strict policy, a file carrying a tag or wikilink whose
/// title no file node bears resolves to an error, never to a partial
/// edge set.
pub proof fn lemma_file_missing_target_fails(ns: Seq<GraphNode>, f: File)
    requires
        (exists|i: int|
            0 <= i < f.tags.deep_view().len() && spec_find_file_idx_by_title(
                ns,
                #[trigger] f.tags.deep_view()[i],
                0,
            ) is None) || (exists|i: int|
            0 <= i < f.wikilinks.deep_view().len() && spec_find_file_idx_by_title(
                ns,
                #[trigger] f.wikilinks.deep_view()[i],
                0,
            ) is None),
    ensures
        spec_file_edges(ns, f) is Err,
{
    if spec_find_file_idx_by_id(ns, f.id@, 0) is Some {
        let own = spec_find_file_idx_by_id(ns, f.id@, 0)->Some_0;
        if exists|i: int|
            0 <= i < f.tags.deep_view().len() && spec_find_file_idx_by_title(
                ns,
                #[trigger] f.tags.deep_view()[i],
                0,
            ) is None {
            let i = choose|i: int|
                0 <= i < f.tags.deep_view().len() && spec_find_file_idx_by_title(
                    ns,
                    #[trigger] f.tags.deep_view()[i],
                    0,
                ) is None;
            lemma_title_edges_missing(ns, f.tags.deep_view(), own, i);
        } else {
            let i = choose|i: int|
                0 <= i < f.wikilinks.deep_view().len() && spec_find_file_idx_by_title(
                    ns,
                    #[trigger] f.wikilinks.deep_view()[i],
                    0,
                ) is None;
            lemma_title_edges_missing(ns, f.wikilinks.deep_view(), own, i);
        }
    }
}

} // verus!
