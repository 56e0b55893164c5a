//! Tests for the early outline data model.

use logseq_graph::logseq::Block;
use logseq_graph::logseq::File;
use logseq_graph::logseq::TypeEnum;
use logseq_graph::tree::MdNode;

fn text(value: &str) -> MdNode {
    MdNode::Text { value: value.to_string() }
}

fn paragraph(value: &str) -> MdNode {
    MdNode::Paragraph { children: vec![text(value)] }
}

fn item(value: &str) -> MdNode {
    MdNode::ListItem { span: None, children: vec![paragraph(value)] }
}

#[test]
fn test_legacy_block_new() {
    let node = MdNode::ListItem {
        span: None,
        children: vec![
            paragraph("a [[b]] c"),
            MdNode::List { span: None, children: vec![item("one"), item("two")] },
        ],
    };
    let b = Block::new(0, &node);
    assert_eq!(b.idx, 0);
    assert_eq!(
        b.content,
        vec![TypeEnum::Text("a ".to_string()), TypeEnum::Text(" c".to_string())]
    );
    assert_eq!(b.sub_blocks.len(), 2);
    assert_eq!(b.sub_blocks[0].idx, 0);
    assert_eq!(b.sub_blocks[1].idx, 1);
    assert_eq!(b.sub_blocks[0].content, vec![TypeEnum::Text("one".to_string())]);
    assert_eq!(b.sub_blocks[1].content, vec![TypeEnum::Text("two".to_string())]);
    assert!(b.sub_blocks[0].sub_blocks.is_empty());
}

#[test]
fn test_legacy_file_new() {
    let ast = MdNode::Root {
        children: vec![
            paragraph("alpha:: one, #two\nbeta:: [[three]]"),
            MdNode::List { span: None, children: vec![item("x"), item("y")] },
        ],
    };
    let f = File::new(7, &ast, "pages/x.md".to_string());
    assert_eq!(f.id, 7);
    assert_eq!(f.path, "pages/x.md");
    assert_eq!(
        f.attributes,
        vec![
            (
                "alpha".to_string(),
                vec![
                    TypeEnum::Text("one".to_string()),
                    TypeEnum::Tag("#two".to_string()),
                ],
            ),
            (
                "beta".to_string(),
                vec![TypeEnum::Backlink("[[three]]".to_string())],
            ),
        ]
    );
    assert_eq!(f.blocks.len(), 2);
    assert_eq!(f.blocks[0].idx, 0);
    assert_eq!(f.blocks[1].idx, 1);
    assert_eq!(f.blocks[0].content, vec![TypeEnum::Text("x".to_string())]);
    assert_eq!(f.blocks[1].content, vec![TypeEnum::Text("y".to_string())]);
}

#[test]
fn test_legacy_attribute_lines_keep_order() {
    // A repeated key keeps both entries in document order; the later
    // one shadows the earlier when the list is read as a mapping.
    let ast = MdNode::Root {
        children: vec![paragraph("k:: a\nk:: b"), paragraph("k:: c")],
    };
    let f = File::new(0, &ast, "p.md".to_string());
    assert_eq!(
        f.attributes,
        vec![
            ("k".to_string(), vec![TypeEnum::Text("a".to_string())]),
            ("k".to_string(), vec![TypeEnum::Text("b".to_string())]),
            ("k".to_string(), vec![TypeEnum::Text("c".to_string())]),
        ]
    );
}
