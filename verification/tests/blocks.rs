//! Tests for the block builder and the per-document ingest.

use logseq_graph::block::Block;
use logseq_graph::block::BlockBuilder;
use logseq_graph::graph::GraphNode;
use logseq_graph::indexer::Indexer;
use logseq_graph::tree::MdNode;
use logseq_graph::tree::Span;
use logseq_graph::IndexError;

fn span(start: usize, end: usize) -> Option<Span> {
    Some(Span { start, end })
}

fn text(value: &str) -> MdNode {
    MdNode::Text { value: value.to_string() }
}

fn paragraph(value: &str) -> MdNode {
    MdNode::Paragraph { children: vec![text(value)] }
}

/// The fixture `- Lorem` / `- Ipsum`, `- Dolor` / `- Sit`, with the
/// sibling top level item `- Amet`.
fn hierarchy_content() -> String {
    "- Lorem\n  - Ipsum\n  - Dolor\n    - Sit\n- Amet".to_string()
}

fn hierarchy_tree() -> MdNode {
    MdNode::Root {
        children: vec![MdNode::List {
            span: span(0, 44),
            children: vec![
                MdNode::ListItem {
                    span: span(0, 38),
                    children: vec![
                        paragraph("Lorem"),
                        MdNode::List {
                            span: span(10, 38),
                            children: vec![
                                MdNode::ListItem {
                                    span: span(10, 17),
                                    children: vec![paragraph("Ipsum")],
                                },
                                MdNode::ListItem {
                                    span: span(20, 38),
                                    children: vec![
                                        paragraph("Dolor"),
                                        MdNode::List {
                                            span: span(32, 38),
                                            children: vec![MdNode::ListItem {
                                                span: span(32, 37),
                                                children: vec![paragraph("Sit")],
                                            }],
                                        },
                                    ],
                                },
                            ],
                        },
                    ],
                },
                MdNode::ListItem { span: span(38, 44), children: vec![paragraph("Amet")] },
            ],
        }],
    }
}

fn first_list_item(ast: &MdNode) -> &MdNode {
    match ast {
        MdNode::Root { children } => match &children[0] {
            MdNode::List { children, .. } => &children[0],
            _ => panic!("fixture has no list"),
        },
        _ => panic!("fixture has no root"),
    }
}

#[test]
fn test_get_slice() {
    let content = "- This tests a block property\n  foo:: bar\n  id:: 662ef9e2-4b89-4f7d-9a54-afd395b03cb0";
    let ast = MdNode::Root {
        children: vec![MdNode::List {
            span: span(0, content.chars().count()),
            children: vec![MdNode::ListItem {
                span: span(0, content.chars().count()),
                children: vec![paragraph(
                    "This tests a block property\nfoo:: bar\nid:: 662ef9e2-4b89-4f7d-9a54-afd395b03cb0",
                )],
            }],
        }],
    };
    let first = BlockBuilder::new()
        .with_file_path("graph/pages/tests___parsing___blocks___property.md".to_string())
        .get_slice(content, first_list_item(&ast));
    assert_eq!(
        first.unwrap(),
        "- This tests a block property\n  foo:: bar\n  id:: 662ef9e2-4b89-4f7d-9a54-afd395b03cb0"
    );
}

#[test]
fn test_slice_stops_at_nested_list() {
    let content = hierarchy_content();
    let tree = hierarchy_tree();
    let lorem = first_list_item(&tree);
    let slice = BlockBuilder::new().get_slice(&content, lorem).unwrap();
    assert_eq!(slice, "- Lorem");
}

#[test]
fn test_build_single_block_for_leaf_item() {
    // An item with no nested list yields exactly one block holding
    // its trimmed full span.
    let content = "- Only one";
    let item = MdNode::ListItem { span: span(0, 10), children: vec![paragraph("Only one")] };
    let blocks = BlockBuilder::new()
        .with_file_id("f".to_string())
        .build(content, &item)
        .unwrap();
    assert_eq!(blocks.len(), 1);
    assert_eq!(blocks[0].content, "- Only one");
    assert_eq!(blocks[0].file_id, "f");
    assert_eq!(blocks[0].parent_block_id, None);
}

#[test]
fn test_build_children_precede_parent() {
    let content = hierarchy_content();
    let tree = hierarchy_tree();
    let lorem = first_list_item(&tree);
    let blocks = BlockBuilder::new()
        .with_file_id("f".to_string())
        .build(&content, lorem)
        .unwrap();
    let contents: Vec<&str> = blocks.iter().map(|b| b.content.as_str()).collect();
    assert_eq!(contents, vec!["- Ipsum", "- Sit", "- Dolor", "- Lorem"]);
    // The root block comes last and each descendant precedes its
    // ancestor, with parent identifiers wired accordingly.
    let by_content = |c: &str| blocks.iter().find(|b| b.content == c).unwrap();
    assert_eq!(by_content("- Lorem").parent_block_id, None);
    assert_eq!(
        by_content("- Ipsum").parent_block_id,
        Some(by_content("- Lorem").id.clone())
    );
    assert_eq!(
        by_content("- Dolor").parent_block_id,
        Some(by_content("- Lorem").id.clone())
    );
    assert_eq!(
        by_content("- Sit").parent_block_id,
        Some(by_content("- Dolor").id.clone())
    );
}

#[test]
fn test_build_declared_id_and_annotations() {
    let content = "- keyed\n  foo:: bar\n  id:: 0a1b2c with a [[link]] and #tagged";
    let n = content.chars().count();
    let item = MdNode::ListItem { span: span(0, n), children: vec![] };
    let blocks = BlockBuilder::new()
        .with_file_id("f".to_string())
        .build(content, &item)
        .unwrap();
    assert_eq!(blocks.len(), 1);
    let b = &blocks[0];
    assert_eq!(b.id, "0a1b2c");
    assert_eq!(b.properties.get("foo"), Some(&"bar".to_string()));
    assert_eq!(b.properties.get("id"), None);
    assert_eq!(b.wikilinks, vec!["link"]);
    assert_eq!(b.tags, vec!["tagged"]);
}

#[test]
fn test_build_missing_position() {
    let item = MdNode::ListItem { span: None, children: vec![] };
    let r = BlockBuilder::new().with_file_id("f".to_string()).build("- x", &item);
    assert_eq!(r, Err(IndexError::MissingPosition));
}

#[test]
fn test_build_invalid_span() {
    let item = MdNode::ListItem { span: span(0, 99), children: vec![] };
    let r = BlockBuilder::new().with_file_id("f".to_string()).build("- x", &item);
    assert_eq!(r, Err(IndexError::InvalidSpan));
}

#[test]
fn test_index_blocks() {
    let content = hierarchy_content();
    let ast = hierarchy_tree();
    let file_id = "test".to_string();
    let mut indexer = Indexer::new();
    let blocks = indexer
        .index_blocks(
            &ast,
            &content,
            &file_id,
            "graph/pages/tests___parsing___blocks___hierarchy.md",
        )
        .unwrap();
    assert_eq!(blocks.len(), 5);
    let by_content = |c: &str| blocks.iter().find(|b| b.content == c).unwrap();

    let block1 = by_content("- Lorem");
    assert_eq!(
        block1,
        &Block {
            id: block1.id.clone(),
            file_id: file_id.clone(),
            parent_block_id: None,
            content: "- Lorem".to_string(),
            properties: logseq_graph::annotations::PropMap::new(),
            wikilinks: vec![],
            tags: vec![],
        }
    );
    let block2 = by_content("- Ipsum");
    assert_eq!(
        block2,
        &Block {
            id: block2.id.clone(),
            file_id: file_id.clone(),
            parent_block_id: Some(block1.id.clone()),
            content: "- Ipsum".to_string(),
            properties: logseq_graph::annotations::PropMap::new(),
            wikilinks: vec![],
            tags: vec![],
        }
    );
    let block3 = by_content("- Dolor");
    assert_eq!(
        block3,
        &Block {
            id: block3.id.clone(),
            file_id: file_id.clone(),
            parent_block_id: Some(block1.id.clone()),
            content: "- Dolor".to_string(),
            properties: logseq_graph::annotations::PropMap::new(),
            wikilinks: vec![],
            tags: vec![],
        }
    );
    let block4 = by_content("- Sit");
    assert_eq!(
        block4,
        &Block {
            id: block4.id.clone(),
            file_id: file_id.clone(),
            parent_block_id: Some(block3.id.clone()),
            content: "- Sit".to_string(),
            properties: logseq_graph::annotations::PropMap::new(),
            wikilinks: vec![],
            tags: vec![],
        }
    );
    let block5 = by_content("- Amet");
    assert_eq!(
        block5,
        &Block {
            id: block5.id.clone(),
            file_id: file_id.clone(),
            parent_block_id: None,
            content: "- Amet".to_string(),
            properties: logseq_graph::annotations::PropMap::new(),
            wikilinks: vec![],
            tags: vec![],
        }
    );

    // Every block got a bare node, in block order.
    assert_eq!(indexer.graph.node_count(), 5);
    assert_eq!(indexer.graph.edge_count(), 0);
    for (i, b) in blocks.iter().enumerate() {
        match indexer.graph.node_at(i) {
            GraphNode::Block { id } => assert_eq!(id, &b.id),
            _ => panic!("expected a block node"),
        }
    }
}
