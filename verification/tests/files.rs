//! Tests for the file builder, the knowledge graph and the linking
//! phase.

use logseq_graph::file::build_file;
use logseq_graph::file::FileBuilder;
use logseq_graph::graph::GraphNode;
use logseq_graph::graph::KnowledgeGraph;
use logseq_graph::indexer::Indexer;
use logseq_graph::tree::MdNode;
use logseq_graph::tree::Span;
use logseq_graph::IndexError;

fn span(start: usize, end: usize) -> Option<Span> {
    Some(Span { start, end })
}

fn text(value: &str) -> MdNode {
    MdNode::Text { value: value.to_string() }
}

fn paragraph(value: &str) -> MdNode {
    MdNode::Paragraph { children: vec![text(value)] }
}

/// A document like `graph/pages/tests___parsing___files___basic.md`:
/// a leading property paragraph, then one list item carrying a
/// wikilink and both tag forms.
fn basic_content() -> String {
    "title:: basic\ntags:: foo, bar\nfoo:: bar\n\n- body with [[wikilink]] and #tag and #[[multi word tag]]\n"
        .to_string()
}

fn basic_tree() -> MdNode {
    let body_start = "title:: basic\ntags:: foo, bar\nfoo:: bar\n\n".chars().count();
    let body_end = basic_content().chars().count() - 1;
    MdNode::Root {
        children: vec![
            paragraph("title:: basic\ntags:: foo, bar\nfoo:: bar"),
            MdNode::List {
                span: span(body_start, body_end),
                children: vec![MdNode::ListItem {
                    span: span(body_start, body_end),
                    children: vec![paragraph(
                        "body with [[wikilink]] and #tag and #[[multi word tag]]",
                    )],
                }],
            },
        ],
    }
}

#[test]
fn file_test_get_properties() {
    let f = build_file(
        "graph/pages/tests___parsing___files___basic.md",
        &basic_tree(),
        &basic_content(),
    )
    .unwrap();
    // `foo` survives; the reserved `title` and `tags` keys do not.
    assert_eq!(f.properties.len(), 1);
    assert_eq!(f.properties.get("foo"), Some(&"bar".to_string()));
    assert_eq!(f.properties.get("title"), None);
    assert_eq!(f.properties.get("tags"), None);
    assert_eq!(f.properties.get("id"), None);
}

#[test]
fn file_test_get_wikilinks() {
    let f = build_file(
        "graph/pages/tests___parsing___files___basic.md",
        &basic_tree(),
        &basic_content(),
    )
    .unwrap();
    assert_eq!(f.wikilinks, vec!["wikilink"]);
}

#[test]
fn file_test_get_tags() {
    let f = build_file(
        "graph/pages/tests___parsing___files___basic.md",
        &basic_tree(),
        &basic_content(),
    )
    .unwrap();
    // Declared values first, then the inline matches in order.
    assert_eq!(f.tags, vec!["foo", "bar", "tag", "multi word tag"]);
}

#[test]
fn test_get_title() {
    assert_eq!(
        FileBuilder::get_title("graph/pages/tests___parsing___files___basic.md"),
        "tests/parsing/files/basic"
    );
}

#[test]
fn test_build() {
    let f = FileBuilder::new()
        .with_path("graph/pages/tests___parsing___files___basic.md".to_string())
        .with_ast(basic_tree())
        .with_content(basic_content())
        .build()
        .unwrap();
    assert_eq!(f.path, "graph/pages/tests___parsing___files___basic.md");
    assert_eq!(f.title, "tests/parsing/files/basic");
    assert_eq!(f.properties.get("foo"), Some(&"bar".to_string()));
    assert_eq!(f.wikilinks, vec!["wikilink"]);
    assert_eq!(
        f.tags,
        vec!["foo", "bar", "tag", "multi word tag"]
    );
    assert_eq!(f.id.len(), 36);
}

#[test]
fn test_build_missing_parts() {
    assert_eq!(
        FileBuilder::new().build().unwrap_err(),
        IndexError::MissingAst
    );
    assert_eq!(
        FileBuilder::new().with_ast(basic_tree()).build().unwrap_err(),
        IndexError::MissingPath
    );
    assert_eq!(
        FileBuilder::new()
            .with_ast(basic_tree())
            .with_path("p.md".to_string())
            .build()
            .unwrap_err(),
        IndexError::MissingContent
    );
    // A leaf node has no children to scan.
    assert_eq!(
        FileBuilder::new()
            .with_ast(text("leaf"))
            .with_path("p.md".to_string())
            .with_content("leaf".to_string())
            .build()
            .unwrap_err(),
        IndexError::NoChildren
    );
}

#[test]
fn test_fresh_file_ids_differ() {
    let a = build_file("a.md", &basic_tree(), &basic_content()).unwrap();
    let b = build_file("a.md", &basic_tree(), &basic_content()).unwrap();
    assert_ne!(a.id, b.id);
}

#[test]
fn test_index_files() {
    // Ingest one document without blocks, as the whole-directory
    // walk does for each file, and inspect the stored entity.
    let mut indexer = Indexer::new();
    let (file, blocks) = indexer
        .index_file(
            "graph/pages/tests___parsing___files___basic.md",
            &basic_tree(),
            &basic_content(),
            false,
        )
        .unwrap();
    assert!(blocks.is_empty());
    assert_eq!(file.path, "graph/pages/tests___parsing___files___basic.md");
    assert_eq!(file.title, "tests/parsing/files/basic");
    assert_eq!(file.properties.get("foo"), Some(&"bar".to_string()));
    assert_eq!(file.wikilinks, vec!["wikilink"]);
    assert_eq!(
        file.tags,
        vec!["foo", "bar", "tag", "multi word tag"]
    );
    assert_eq!(indexer.graph.node_count(), 1);
    match indexer.graph.node_at(0) {
        GraphNode::File { id, title } => {
            assert_eq!(id, &file.id);
            assert_eq!(title.as_deref(), Some("tests/parsing/files/basic"));
        },
        _ => panic!("expected a file node"),
    }
}

/// One block whose tag and wikilink both name the page title `t`.
fn linked_block(id: &str, file_id: &str, title: &str) -> logseq_graph::block::Block {
    logseq_graph::block::Block {
        id: id.to_string(),
        content: "- x".to_string(),
        file_id: file_id.to_string(),
        parent_block_id: None,
        properties: logseq_graph::annotations::PropMap::new(),
        tags: vec![title.to_string()],
        wikilinks: vec![title.to_string()],
    }
}

#[test]
fn test_graph_link_adds_edges() {
    let mut g = KnowledgeGraph::new();
    g.add_node(GraphNode::File { id: "f1".to_string(), title: Some("page".to_string()) });
    let b = linked_block("b1", "f1", "page");
    b.add_to_graph(&mut g);
    let mut indexer = Indexer { graph: g };
    indexer.graph_link(&vec![b], &vec![]).unwrap();
    // One tag edge and one wikilink edge, both from the file node to
    // the block node.
    assert_eq!(indexer.graph.edge_count(), 2);
    assert_eq!(indexer.graph.edge_at(0), (0, 1));
    assert_eq!(indexer.graph.edge_at(1), (0, 1));
}

#[test]
fn test_linking_twice_duplicates_edges() {
    // Duplicate edges are kept by design: a second linking pass over
    // the unchanged graph adds the same edges again.
    let mut g = KnowledgeGraph::new();
    g.add_node(GraphNode::File { id: "f1".to_string(), title: Some("page".to_string()) });
    let b = linked_block("b1", "f1", "page");
    b.add_to_graph(&mut g);
    let mut indexer = Indexer { graph: g };
    indexer.graph_link(&vec![b], &vec![]).unwrap();
    assert_eq!(indexer.graph.edge_count(), 2);
    let b = linked_block("b1", "f1", "page");
    indexer.graph_link(&vec![b], &vec![]).unwrap();
    assert_eq!(indexer.graph.edge_count(), 4);
    for i in 0..4 {
        assert_eq!(indexer.graph.edge_at(i), (0, 1));
    }
}

#[test]
fn test_missing_target_fails_linking() {
    // A wikilink or tag naming a title with no file node fails the
    // entity under the strict policy.
    let mut g = KnowledgeGraph::new();
    let b = linked_block("b1", "f1", "nowhere");
    b.add_to_graph(&mut g);
    let mut indexer = Indexer { graph: g };
    let b = linked_block("b1", "f1", "nowhere");
    assert_eq!(
        indexer.graph_link(&vec![b], &vec![]).unwrap_err(),
        IndexError::MissingTagTarget
    );
    // No edges were added for the failed entity.
    assert_eq!(indexer.graph.edge_count(), 0);
}

#[test]
fn test_missing_own_node_fails_linking() {
    let mut indexer = Indexer::new();
    let b = linked_block("b1", "f1", "page");
    assert_eq!(
        indexer.graph_link(&vec![b], &vec![]).unwrap_err(),
        IndexError::MissingNode
    );
}

#[test]
fn test_missing_parent_fails_linking() {
    let mut g = KnowledgeGraph::new();
    let mut b = linked_block("b1", "f1", "page");
    b.tags = vec![];
    b.wikilinks = vec![];
    b.parent_block_id = Some("absent".to_string());
    b.add_to_graph(&mut g);
    let mut indexer = Indexer { graph: g };
    assert_eq!(
        indexer.graph_link(&vec![b], &vec![]).unwrap_err(),
        IndexError::MissingParent
    );
}

#[test]
fn test_missing_wikilink_target_fails_linking() {
    let mut g = KnowledgeGraph::new();
    g.add_node(GraphNode::File { id: "f1".to_string(), title: Some("page".to_string()) });
    let mut b = linked_block("b1", "f1", "page");
    b.wikilinks = vec!["nowhere".to_string()];
    b.add_to_graph(&mut g);
    let mut indexer = Indexer { graph: g };
    assert_eq!(
        indexer.graph_link(&vec![b], &vec![]).unwrap_err(),
        IndexError::MissingWikilinkTarget
    );
}

#[test]
fn test_file_edges_via_tags_and_wikilinks() {
    // File-level tags and wikilinks resolve against file titles too.
    let mut g = KnowledgeGraph::new();
    g.add_node(GraphNode::File { id: "f1".to_string(), title: Some("one".to_string()) });
    g.add_node(GraphNode::File { id: "f2".to_string(), title: Some("two".to_string()) });
    let f = logseq_graph::file::File {
        id: "f1".to_string(),
        path: "one.md".to_string(),
        title: "one".to_string(),
        properties: logseq_graph::annotations::PropMap::new(),
        wikilinks: vec!["two".to_string()],
        tags: vec!["two".to_string()],
    };
    let mut indexer = Indexer { graph: g };
    indexer.graph_link(&vec![], &vec![f]).unwrap();
    assert_eq!(indexer.graph.edge_count(), 2);
    assert_eq!(indexer.graph.edge_at(0), (1, 0));
    assert_eq!(indexer.graph.edge_at(1), (1, 0));
}

#[test]
fn test_end_to_end_ingest_and_link() {
    // Two documents: the second links to the first by title; linking
    // is deferred until both are ingested, so the forward reference
    // resolves.
    let mut indexer = Indexer::new();
    let c1 = "- plain\n".to_string();
    let t1 = MdNode::Root {
        children: vec![MdNode::List {
            span: span(0, 7),
            children: vec![MdNode::ListItem {
                span: span(0, 7),
                children: vec![paragraph("plain")],
            }],
        }],
    };
    let (f1, b1) = indexer.index_file("pages/target.md", &t1, &c1, true).unwrap();
    let c2 = "- see [[target]]\n".to_string();
    let t2 = MdNode::Root {
        children: vec![MdNode::List {
            span: span(0, 16),
            children: vec![MdNode::ListItem {
                span: span(0, 16),
                children: vec![paragraph("see [[target]]")],
            }],
        }],
    };
    let (f2, b2) = indexer.index_file("pages/source.md", &t2, &c2, true).unwrap();
    assert_eq!(b2[0].wikilinks, vec!["target"]);

    let mut blocks = b1;
    blocks.extend(b2);
    let files = vec![f1, f2];
    indexer.graph_link(&blocks, &files).unwrap();
    // Two edges: the second document's block to the first document's
    // file node, and the second file itself to that node, since its
    // body carries the wikilink too.
    assert_eq!(indexer.graph.edge_count(), 2);
    let (a, b) = indexer.graph.edge_at(0);
    match indexer.graph.node_at(a) {
        GraphNode::File { title, .. } => assert_eq!(title.as_deref(), Some("target")),
        _ => panic!("expected the target file node"),
    }
    match indexer.graph.node_at(b) {
        GraphNode::Block { id } => assert_eq!(id, &blocks[1].id),
        _ => panic!("expected the source block node"),
    }
    assert_eq!(indexer.graph.edge_at(1), (0, 2));
}
