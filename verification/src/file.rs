//! Files: one entity per ingested document, with a title derived from
//! its path and annotations extracted from its leading text and body.

use vstd::prelude::*;

use crate::IndexError;
use crate::annotations::PropMap;
use crate::annotations::extract_file_properties;
use crate::annotations::extract_tags;
use crate::annotations::extract_wikilinks;
use crate::annotations::fresh_id;
use crate::annotations::spec_file_excluded_keys;
use crate::annotations::spec_pairs_map;
use crate::annotations::spec_props_from;
use crate::annotations::spec_tags_from;
use crate::annotations::spec_tags_key;
use crate::annotations::spec_wikilinks_from;
use crate::chars::spec_is_id_char;
use crate::strutil::csv_items;
use crate::strutil::line_kv;
use crate::strutil::lines_of;
use crate::strutil::spec_csv_items;
use crate::strutil::spec_line_kv;
use crate::strutil::spec_lines;
use crate::strutil::spec_title;
use crate::strutil::str_eq;
use crate::strutil::title_of_path;
use crate::tree::MdNode;

verus! {

/// One ingested document and its extracted annotations.
#[derive(Debug, PartialEq)]
pub struct File {
    /// The freshly generated identifier of the file.
    pub id: String,
    /// The path of the document, kept verbatim as a retrieval key.
    pub path: String,
    /// The title the path derives.
    pub title: String,
    /// The properties of the leading text, reserved keys left out.
    pub properties: PropMap,
    /// The wikilinks of the whole body, in match order.
    pub wikilinks: Vec<String>,
    /// The tags: declared `tags::` values first, then inline matches.
    pub tags: Vec<String>,
}

/// The children of a node, absent for leaf kinds.
pub open spec fn spec_children_of(n: MdNode) -> Option<Seq<MdNode>> {
    match n {
        MdNode::Root { children } => Some(children@),
        MdNode::List { children, .. } => Some(children@),
        MdNode::ListItem { children, .. } => Some(children@),
        MdNode::Paragraph { children } => Some(children@),
        MdNode::Text { .. } => None,
        MdNode::Other => None,
    }
}

/// The concatenated values of the text leaves among `cs`.
pub open spec fn spec_texts(cs: Seq<MdNode>, i: int) -> Seq<char>
    decreases cs.len() - i,
{
    if i < 0 || i >= cs.len() {
        Seq::empty()
    } else {
        (match cs[i] {
            MdNode::Text { value } => value@,
            _ => Seq::<char>::empty(),
        }) + spec_texts(cs, i + 1)
    }
}

/// The leading text of a document: the concatenated text leaves of
/// every paragraph child before the first list child.
pub open spec fn spec_top_text_from(cs: Seq<MdNode>, i: int) -> Seq<char>
    decreases cs.len() - i,
{
    if i < 0 || i >= cs.len() {
        Seq::empty()
    } else {
        match cs[i] {
            MdNode::List { .. } => Seq::empty(),
            MdNode::Paragraph { children } => spec_texts(children@, 0) + spec_top_text_from(
                cs,
                i + 1,
            ),
            _ => spec_top_text_from(cs, i + 1),
        }
    }
}

/// The leading text of a document tree.
pub open spec fn spec_top_text(ast: MdNode) -> Seq<char> {
    spec_top_text_from(spec_children_of(ast)->Some_0, 0)
}

/// The values of every `tags::` line among `ls`, comma-split and
/// trimmed, in line order.
pub open spec fn spec_declared_tags_from(ls: Seq<Seq<char>>, i: int) -> Seq<Seq<char>>
    decreases ls.len() - i,
{
    if i < 0 || i >= ls.len() {
        Seq::empty()
    } else {
        (match spec_line_kv(ls[i]) {
            Some(kv) => if kv.0 == spec_tags_key() {
                spec_csv_items(kv.1)
            } else {
                Seq::<Seq<char>>::empty()
            },
            None => Seq::<Seq<char>>::empty(),
        }) + spec_declared_tags_from(ls, i + 1)
    }
}

/// The tags of a file: the declared `tags::` values of its leading
/// text first, then the inline tags of its whole body.
pub open spec fn spec_file_tags(top: Seq<char>, body: Seq<char>) -> Seq<Seq<char>> {
    spec_declared_tags_from(spec_lines(top), 0) + spec_tags_from(body, 0)
}

/// Collects the concatenated text-leaf values among `cs`.
fn texts_of(cs: &Vec<MdNode>) -> (r: String)
    ensures
        r@ == spec_texts(cs@, 0),
{
    let n = cs.len();
    let mut r = String::new();
    let mut i: usize = 0;
    proof {
        assert(r@ + spec_texts(cs@, 0) =~= spec_texts(cs@, 0));
    }
    while i < n
        invariant
            0 <= i <= n,
            n == cs@.len(),
            spec_texts(cs@, 0) == r@ + spec_texts(cs@, i as int),
        decreases n - i,
    {
        match &cs[i] {
            MdNode::Text { value } => {
                r.append(value.as_str());
            },
            _ => {},
        }
        i = i + 1;
    }
    proof {
        assert(r@ + spec_texts(cs@, n as int) =~= r@);
    }
    r
}

/// Collects the leading text of a document tree: the text leaves of
/// its paragraph children before its first list child. Fails when
/// the tree is a leaf kind with no children.
#[verifier::loop_isolation(false)]
pub fn get_top_text(ast: &MdNode) -> (r: Result<String, IndexError>)
    ensures
        match r {
            Ok(s) => spec_children_of(*ast) is Some && s@ == spec_top_text(*ast),
            Err(e) => e == IndexError::NoChildren && spec_children_of(*ast) is None,
        },
{
    let cs: &Vec<MdNode> = match ast {
        MdNode::Root { children } => children,
        MdNode::List { children, .. } => children,
        MdNode::ListItem { children, .. } => children,
        MdNode::Paragraph { children } => children,
        MdNode::Text { .. } => {
            return Err(IndexError::NoChildren);
        },
        MdNode::Other => {
            return Err(IndexError::NoChildren);
        },
    };
    let n = cs.len();
    let mut r = String::new();
    let mut i: usize = 0;
    proof {
        assert(r@ + spec_top_text_from(cs@, 0) =~= spec_top_text_from(cs@, 0));
    }
    while i < n
        invariant
            0 <= i <= n,
            n == cs@.len(),
            cs@ == spec_children_of(*ast)->Some_0,
            spec_top_text_from(cs@, 0) == r@ + spec_top_text_from(cs@, i as int),
        decreases n - i,
    {
        match &cs[i] {
            MdNode::List { .. } => {
                proof {
                    assert(spec_top_text_from(cs@, i as int) =~= Seq::<char>::empty());
                    assert(r@ + Seq::<char>::empty() =~= r@);
                }
                return Ok(r);
            },
            MdNode::Paragraph { children } => {
                let piece = texts_of(children);
                r.append(piece.as_str());
            },
            _ => {},
        }
        i = i + 1;
    }
    proof {
        assert(r@ + spec_top_text_from(cs@, n as int) =~= r@);
    }
    Ok(r)
}

/// Collects the declared `tags::` values of a leading text: every
/// such line's comma-separated values, trimmed, in line order.
pub fn declared_tags(top_text: &str) -> (r: Vec<String>)
    ensures
        r.deep_view() == spec_declared_tags_from(spec_lines(top_text@), 0),
{
    let ls = lines_of(top_text);
    let n = ls.len();
    let mut r: Vec<String> = Vec::new();
    let mut i: usize = 0;
    proof {
        assert(ls@.len() == ls.deep_view().len());
        assert(r.deep_view() + spec_declared_tags_from(ls.deep_view(), 0)
            =~= spec_declared_tags_from(ls.deep_view(), 0));
    }
    while i < n
        invariant
            0 <= i <= n,
            n == ls@.len(),
            n == ls.deep_view().len(),
            ls.deep_view() == spec_lines(top_text@),
            spec_declared_tags_from(ls.deep_view(), 0) == r.deep_view()
                + spec_declared_tags_from(ls.deep_view(), i as int),
        decreases n - i,
    {
        proof {
            assert(ls.deep_view()[i as int] == ls@[i as int]@);
        }
        match line_kv(ls[i].as_str()) {
            Some((key, value)) => {
                if str_eq(key.as_str(), "tags") {
                    proof {
                        reveal_strlit("tags");
                        assert("tags"@ =~= spec_tags_key());
                    }
                    let mut items = csv_items(value.as_str());
                    let ghost pre = r.deep_view();
                    let ghost items_view = items.deep_view();
                    r.append(&mut items);
                    proof {
                        assert(r.deep_view() =~= pre + items_view);
                    }
                } else {
                    proof {
                        reveal_strlit("tags");
                        assert("tags"@ =~= spec_tags_key());
                        assert(r.deep_view() + Seq::<Seq<char>>::empty() =~= r.deep_view());
                    }
                }
            },
            None => {
                proof {
                    assert(r.deep_view() + Seq::<Seq<char>>::empty() =~= r.deep_view());
                }
            },
        }
        i = i + 1;
    }
    proof {
        assert(r.deep_view() + spec_declared_tags_from(ls.deep_view(), n as int) =~= r.deep_view());
    }
    r
}

/// Extracts the tags of a file: declared values first, then inline
/// matches over the whole body.
pub fn extract_file_tags(top_text: &str, content: &str) -> (r: Vec<String>)
    ensures
        r.deep_view() == spec_file_tags(top_text@, content@),
{
    let mut r = declared_tags(top_text);
    let mut inline = extract_tags(content);
    let ghost pre = r.deep_view();
    let ghost inline_view = inline.deep_view();
    r.append(&mut inline);
    proof {
        assert(r.deep_view() =~= pre + inline_view);
    }
    r
}

/// Builds one file entity from a document tree, its raw text and its
/// path.
pub struct FileBuilder {
    /// The path of the document.
    pub path: Option<String>,
    /// The parsed document tree.
    pub ast: Option<MdNode>,
    /// The raw text of the document.
    pub content: Option<String>,
}

impl FileBuilder {
    /// An empty builder.
    pub fn new() -> (r: FileBuilder)
        ensures
            r.path is None,
            r.ast is None,
            r.content is None,
    {
        FileBuilder { path: None, ast: None, content: None }
    }

    /// Sets the document's path.
    pub fn with_path(self, path: String) -> (r: FileBuilder)
        ensures
            r.path == Some(path),
            r.ast == self.ast,
            r.content == self.content,
    {
        FileBuilder { path: Some(path), ..self }
    }

    /// Sets the parsed document tree.
    pub fn with_ast(self, ast: MdNode) -> (r: FileBuilder)
        ensures
            r.ast == Some(ast),
            r.path == self.path,
            r.content == self.content,
    {
        FileBuilder { ast: Some(ast), ..self }
    }

    /// Sets the raw text of the document.
    pub fn with_content(self, content: String) -> (r: FileBuilder)
        ensures
            r.content == Some(content),
            r.path == self.path,
            r.ast == self.ast,
    {
        FileBuilder { content: Some(content), ..self }
    }

    /// Derives the title of a document path.
    pub fn get_title(path: &str) -> (r: String)
        ensures
            r@ == spec_title(path@),
    {
        title_of_path(path)
    }

    /// Builds the file: the title derives from the path; properties
    /// and declared tags come from the leading text; wikilinks and
    /// inline tags come from the whole body; the identifier is
    /// freshly generated. Fails when the tree, path or raw text is
    /// missing, or the tree has no children.
    pub fn build(self) -> (r: Result<File, IndexError>)
        ensures
            r is Ok <==> (self.ast is Some && self.path is Some && self.content is Some
                && spec_children_of(self.ast->Some_0) is Some),
            match r {
                Ok(f) => spec_file_built(
                    f,
                    self.path->Some_0@,
                    self.ast->Some_0,
                    self.content->Some_0@,
                ),
                Err(e) => if self.ast is None {
                    e == IndexError::MissingAst
                } else if self.path is None {
                    e == IndexError::MissingPath
                } else if self.content is None {
                    e == IndexError::MissingContent
                } else {
                    e == IndexError::NoChildren
                },
            },
    {
        let ast = match self.ast {
            Some(ast) => ast,
            None => {
                return Err(IndexError::MissingAst);
            },
        };
        let path = match self.path {
            Some(path) => path,
            None => {
                return Err(IndexError::MissingPath);
            },
        };
        let content = match self.content {
            Some(content) => content,
            None => {
                return Err(IndexError::MissingContent);
            },
        };
        build_file(path.as_str(), &ast, content.as_str())
    }
}

/// A file entity is exactly what its path, document tree and raw
/// text prescribe, its identifier freshly generated.
pub open spec fn spec_file_built(f: File, path: Seq<char>, ast: MdNode, content: Seq<char>) -> bool {
    &&& f.path@ == path
    &&& f.title@ == spec_title(path)
    &&& f.properties.wf()
    &&& f.properties@ == spec_pairs_map(
        spec_props_from(spec_top_text(ast), 0),
        spec_file_excluded_keys(),
    )
    &&& f.wikilinks.deep_view() == spec_wikilinks_from(content, 0)
    &&& f.tags.deep_view() == spec_file_tags(spec_top_text(ast), content)
    &&& f.id@.len() == 36
    &&& forall|k: int| 0 <= k < 36 ==> spec_is_id_char(#[trigger] f.id@[k])
}

/// Builds one file entity from its path, document tree and raw text.
pub fn build_file(path: &str, ast: &MdNode, content: &str) -> (r: Result<File, IndexError>)
    ensures
        r is Ok <==> spec_children_of(*ast) is Some,
        match r {
            Ok(f) => spec_file_built(f, path@, *ast, content@),
            Err(e) => e == IndexError::NoChildren,
        },
{
    let top_text = match get_top_text(ast) {
        Ok(top_text) => top_text,
        Err(e) => {
            return Err(e);
        },
    };
    let id = fresh_id();
    let title = title_of_path(path);
    let properties = extract_file_properties(top_text.as_str());
    let wikilinks = extract_wikilinks(content);
    let tags = extract_file_tags(top_text.as_str(), content);
    Ok(File { id, path: path.to_owned(), title, properties, wikilinks, tags })
}

} // verus!
