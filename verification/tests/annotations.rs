//! Tests for the annotation extractors and the string helpers.

use logseq_graph::annotations::extract_id;
use logseq_graph::annotations::extract_properties;
use logseq_graph::annotations::extract_tags;
use logseq_graph::annotations::extract_wikilinks;
use logseq_graph::annotations::find_declared_id;
use logseq_graph::annotations::PropMap;
use logseq_graph::logseq::TypeEnum;
use logseq_graph::strutil::csv_items;
use logseq_graph::strutil::line_kv;
use logseq_graph::strutil::lines_of;
use logseq_graph::strutil::str_eq;
use logseq_graph::strutil::title_of_path;
use logseq_graph::strutil::trim_str;

fn property_fixture_items() -> Vec<String> {
    vec![
        "This tests a block property\nfoo:: bar\nid:: 662ef9e2-4b89-4f7d-9a54-afd395b03cb0"
            .to_string(),
        "This one only has a property\nfoo:: bar".to_string(),
        "This one only has an id\nid:: 662effa7-a861-42df-a5bf-64c783eb8b64".to_string(),
        "This one has neither".to_string(),
    ]
}

#[test]
fn test_get_id() {
    let list_items = property_fixture_items();

    // The first and third items have an id
    let first = extract_id(&list_items[0]);
    assert_eq!(first, "662ef9e2-4b89-4f7d-9a54-afd395b03cb0");
    let third = extract_id(&list_items[2]);
    assert_eq!(third, "662effa7-a861-42df-a5bf-64c783eb8b64");
}

#[test]
fn test_id_is_fresh_without_declaration() {
    let a = extract_id("no identifier declared here");
    let b = extract_id("no identifier declared here");
    assert_eq!(a.len(), 36);
    assert_eq!(b.len(), 36);
    assert_ne!(a, b);
    assert_eq!(find_declared_id("no identifier declared here"), None);
}

#[test]
fn test_id_embedded_match() {
    // The match need not start at a word boundary.
    assert_eq!(extract_id("fluid:: abc"), "abc");
}

#[test]
fn block_test_get_properties() {
    let list_items = property_fixture_items();

    // The first and second items have properties foo:: bar
    let first = extract_properties(&list_items[0]);
    assert_eq!(first.get("foo"), Some(&"bar".to_string()));
    let second = extract_properties(&list_items[1]);
    assert_eq!(second.get("foo"), Some(&"bar".to_string()));
    let third = extract_properties(&list_items[2]);
    assert_eq!(third.len(), 0);
    let fourth = extract_properties(&list_items[3]);
    assert_eq!(fourth.len(), 0);
}

#[test]
fn test_get_properties_does_not_return_ids() {
    let list_items = property_fixture_items();

    for li in list_items {
        let properties = extract_properties(&li);
        assert_eq!(properties.get("id"), None);
    }
}

#[test]
fn test_properties_last_value_wins() {
    let properties = extract_properties("key:: one\nkey:: two");
    assert_eq!(properties.get("key"), Some(&"two".to_string()));
    assert_eq!(properties.len(), 1);
}

#[test]
fn test_prop_map_insert_get_len() {
    let mut m = PropMap::new();
    assert_eq!(m.len(), 0);
    m.insert("a".to_string(), "one".to_string());
    m.insert("b".to_string(), "two".to_string());
    m.insert("a".to_string(), "three".to_string());
    assert_eq!(m.len(), 2);
    assert_eq!(m.get("a"), Some(&"three".to_string()));
    assert_eq!(m.get("b"), Some(&"two".to_string()));
    assert_eq!(m.get("c"), None);
}

#[test]
fn block_test_get_wikilinks() {
    let content = "- A #[[multi word tag]] and #tag near a [[wikilink]]";
    let wikilinks = extract_wikilinks(content);
    assert_eq!(wikilinks, vec!["wikilink"]);
}

#[test]
fn block_test_get_tags() {
    let content = "- A #[[multi word tag]] and #tag near a [[wikilink]]";
    let tags = extract_tags(content);
    assert_eq!(tags, vec!["multi word tag", "tag"]);
}

#[test]
fn test_hash_bracket_is_tag_not_wikilink() {
    let content = "one #[[pair]] and [[link]] here";
    assert_eq!(extract_wikilinks(content), vec!["link"]);
    assert_eq!(extract_tags(content), vec!["pair"]);
}

#[test]
fn test_wikilink_requires_leading_whitespace() {
    // No whitespace before the brackets: not a wikilink.
    let content = "x[[link]]";
    assert_eq!(extract_wikilinks(content), Vec::<String>::new());
    let content = "x [[link]]";
    assert_eq!(extract_wikilinks(content), vec!["link"]);
}

#[test]
fn test_wikilink_capture_is_trimmed() {
    assert_eq!(extract_wikilinks("a [[ padded link ]] b"), vec!["padded link"]);
}

#[test]
fn test_trim_and_eq_helpers() {
    assert_eq!(trim_str("  spaced out\t\n"), "spaced out");
    assert_eq!(trim_str("   "), "");
    assert!(str_eq("same", "same"));
    assert!(!str_eq("same", "other"));
}

#[test]
fn test_lines_and_kv_and_csv() {
    let ls = lines_of("a\nb\r\n\nlast\n");
    assert_eq!(ls, vec!["a", "b", "", "last"]);
    assert_eq!(line_kv("tags:: a, b"), Some(("tags".to_string(), " a, b".to_string())));
    assert_eq!(line_kv("no separator"), None);
    assert_eq!(line_kv("a::b::c"), None);
    assert_eq!(csv_items(" a, b ,,c"), vec!["a", "b", "", "c"]);
}

#[test]
fn test_title_of_path() {
    assert_eq!(title_of_path("graph/pages/a___b.md"), "a/b");
    assert_eq!(title_of_path("plain.md"), "plain");
    assert_eq!(title_of_path("keeps.other"), "keeps.other");
}

#[test]
fn test_unicode_word_characters() {
    // Accented letters are word characters in tags and wikilinks.
    assert_eq!(extract_tags("a #caf\u{e9} b"), vec!["caf\u{e9}"]);
    assert_eq!(extract_wikilinks("a [[caf\u{e9}]] b"), vec!["caf\u{e9}"]);
}

#[test]
fn test_unicode_whitespace() {
    // A no-break space counts as whitespace before a wikilink, and
    // trimming removes Unicode whitespace.
    assert_eq!(extract_wikilinks("x\u{a0}[[link]]"), vec!["link"]);
    assert_eq!(trim_str("\u{a0}padded\u{3000}"), "padded");
}

#[test]
fn test_unicode_from_text_split() {
    let runs = TypeEnum::from_text("x #caf\u{e9} y".to_string());
    assert_eq!(
        runs,
        vec![TypeEnum::Text("x ".to_string()), TypeEnum::Text(" y".to_string())]
    );
}

#[test]
fn test_from_csv_item() {
    assert_eq!(
        TypeEnum::from_csv_item("#tag".to_string()),
        TypeEnum::Tag("#tag".to_string())
    );
    assert_eq!(
        TypeEnum::from_csv_item("[[page]]".to_string()),
        TypeEnum::Backlink("[[page]]".to_string())
    );
    assert_eq!(
        TypeEnum::from_csv_item("plain".to_string()),
        TypeEnum::Text("plain".to_string())
    );
}

#[test]
fn test_from_text_splits_at_occurrences() {
    let runs = TypeEnum::from_text("a [[b]] c #d e".to_string());
    assert_eq!(
        runs,
        vec![
            TypeEnum::Text("a ".to_string()),
            TypeEnum::Text(" c ".to_string()),
            TypeEnum::Text(" e".to_string()),
        ]
    );
    let runs = TypeEnum::from_text("plain words".to_string());
    assert_eq!(runs, vec![TypeEnum::Text("plain words".to_string())]);
}
