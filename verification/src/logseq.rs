//! The early data model for outline documents: text runs classified
//! into plain text, backlinks and tags.

use vstd::prelude::*;

use crate::chars::CharClass;
use crate::chars::in_class;
use crate::chars::run_end;
use crate::chars::spec_is_word;
use crate::chars::spec_run_end;
use crate::tree::MdNode;

verus! {

/// One classified run of text.
#[derive(Debug, PartialEq)]
pub enum TypeEnum {
    /// Plain text.
    Text(String),
    /// A bracket reference to another page.
    Backlink(String),
    /// A tag.
    Tag(String),
}

/// A comma-separated value is a tag when it starts with `#`.
pub open spec fn spec_csv_is_tag(s: Seq<char>) -> bool {
    s.len() >= 1 && s[0] == '#'
}

/// A comma-separated value is a backlink when it starts with `[[`
/// and ends with `]]`.
pub open spec fn spec_csv_is_backlink(s: Seq<char>) -> bool {
    s.len() >= 2 && s[0] == '[' && s[1] == '[' && s[s.len() - 2] == ']' && s[s.len() - 1] == ']'
}

impl TypeEnum {
    /// Classifies one comma-separated attribute value: a `#` prefix
    /// makes a tag, `[[` and `]]` around it make a backlink, and
    /// anything else is plain text. The value is kept verbatim.
    pub fn from_csv_item(item: String) -> (r: TypeEnum)
        ensures
            match r {
                TypeEnum::Tag(s) => s == item && spec_csv_is_tag(item@),
                TypeEnum::Backlink(s) => s == item && !spec_csv_is_tag(item@)
                    && spec_csv_is_backlink(item@),
                TypeEnum::Text(s) => s == item && !spec_csv_is_tag(item@) && !spec_csv_is_backlink(
                    item@,
                ),
            },
    {
        let n = item.as_str().unicode_len();
        if n >= 1 && item.as_str().get_char(0) == '#' {
            TypeEnum::Tag(item)
        } else if n >= 2 && item.as_str().get_char(0) == '[' && item.as_str().get_char(1) == '['
            && item.as_str().get_char(n - 2) == ']' && item.as_str().get_char(n - 1) == ']' {
            TypeEnum::Backlink(item)
        } else {
            TypeEnum::Text(item)
        }
    }

    /// Splits a text at every backlink or tag occurrence and hands
    /// back the runs between them, each as plain text.
    pub fn from_text(text: String) -> (r: Vec<TypeEnum>)
        ensures
            r@.len() == spec_split_pieces(text@, 0, 0).len(),
            forall|i: int|
                0 <= i < r@.len() ==> ((#[trigger] r@[i]) matches TypeEnum::Text(s) && s@
                    == spec_split_pieces(text@, 0, 0)[i]),
    {
        let t = text.as_str();
        let n = t.unicode_len();
        let mut r: Vec<TypeEnum> = Vec::new();
        let mut i: usize = 0;
        let mut start: usize = 0;
        while i < n
            invariant
                0 <= start <= i <= n,
                n == t@.len(),
                t@ == text@,
                spec_split_pieces(t@, 0, 0) == Seq::new(
                    r@.len(),
                    |k: int| pieces_text_view(r@, k),
                ) + spec_split_pieces(t@, i as int, start as int),
                forall|k: int|
                    0 <= k < r@.len() ==> (#[trigger] r@[k]) matches TypeEnum::Text(s),
            decreases n - i,
        {
            let m = occurrence_end(t, i);
            match m {
                Some(e) => {
                    let piece = t.substring_char(start, i).to_owned();
                    let ghost pre = r@;
                    r.push(TypeEnum::Text(piece));
                    proof {
                        assert(Seq::new(r@.len(), |k: int| pieces_text_view(r@, k)) =~= Seq::new(
                            pre.len(),
                            |k: int| pieces_text_view(pre, k),
                        ).push(t@.subrange(start as int, i as int)));
                    }
                    i = e;
                    start = e;
                },
                None => {
                    i = i + 1;
                },
            }
        }
        let piece = t.substring_char(start, n).to_owned();
        let ghost pre = r@;
        r.push(TypeEnum::Text(piece));
        proof {
            assert(Seq::new(r@.len(), |k: int| pieces_text_view(r@, k)) =~= Seq::new(
                pre.len(),
                |k: int| pieces_text_view(pre, k),
            ).push(t@.subrange(start as int, n as int)));
            assert(spec_split_pieces(t@, n as int, start as int) =~= seq![
                t@.subrange(start as int, n as int),
            ]);
            let whole = Seq::new(pre.len(), |k: int| pieces_text_view(pre, k)) + spec_split_pieces(
                t@,
                n as int,
                start as int,
            );
            assert(whole =~= Seq::new(r@.len(), |k: int| pieces_text_view(r@, k)));
            assert forall|k: int| 0 <= k < r@.len() implies ((#[trigger] r@[k]) matches
                TypeEnum::Text(s) && s@ == spec_split_pieces(text@, 0, 0)[k]) by {
                assert(spec_split_pieces(text@, 0, 0)[k] == pieces_text_view(r@, k));
            }
        }
        r
    }
}

/// The text a classified run at `k` holds.
pub open spec fn pieces_text_view(rs: Seq<TypeEnum>, k: int) -> Seq<char> {
    match rs[k] {
        TypeEnum::Text(s) => s@,
        TypeEnum::Backlink(s) => s@,
        TypeEnum::Tag(s) => s@,
    }
}

/// The first closing `]]` at or after `k` that a lazy bracket body
/// reaches: the body may hold any character but a line feed.
pub open spec fn spec_lazy_close(t: Seq<char>, k: int) -> Option<int>
    decreases t.len() - k,
{
    if k < 0 || k + 1 >= t.len() {
        None
    } else if t[k] == ']' && t[k + 1] == ']' {
        Some(k)
    } else if t[k] == '\n' {
        None
    } else {
        spec_lazy_close(t, k + 1)
    }
}

/// The end of the backlink or tag occurrence starting at `i`, when
/// one starts there: a lazy `[[` ... `]]` bracket, a `#` with a word
/// run, or a `#` with a lazy bracket, tried in that order.
pub open spec fn spec_occurrence_end(t: Seq<char>, i: int) -> Option<int> {
    if 0 <= i < t.len() && t[i] == '[' && i + 1 < t.len() && t[i + 1] == '[' {
        match spec_lazy_close(t, i + 2) {
            Some(j) => Some(j + 2),
            None => None,
        }
    } else if 0 <= i < t.len() && t[i] == '#' {
        if i + 1 < t.len() && spec_is_word(t[i + 1]) {
            Some(spec_run_end(CharClass::Word, t, i + 1))
        } else if i + 2 < t.len() && t[i + 1] == '[' && t[i + 2] == '[' {
            match spec_lazy_close(t, i + 3) {
                Some(j) => Some(j + 2),
                None => None,
            }
        } else {
            None
        }
    } else {
        None
    }
}

/// An occurrence ends after it starts and within the text.
pub proof fn lemma_occurrence_end_bounds(t: Seq<char>, i: int)
    requires
        0 <= i < t.len(),
        spec_occurrence_end(t, i) is Some,
    ensures
        i < spec_occurrence_end(t, i)->Some_0 <= t.len(),
{
    lemma_lazy_close_bounds(t, i + 2);
    lemma_lazy_close_bounds(t, i + 3);
    if t[i] == '#' && i + 1 < t.len() && spec_is_word(t[i + 1]) {
        crate::chars::lemma_run_end_bounds(CharClass::Word, t, i + 2);
        assert(spec_run_end(CharClass::Word, t, i + 1) == spec_run_end(CharClass::Word, t, i + 2));
    }
}

proof fn lemma_lazy_close_bounds(t: Seq<char>, k: int)
    requires
        0 <= k,
    ensures
        spec_lazy_close(t, k) matches Some(j) ==> k <= j && j + 2 <= t.len(),
    decreases t.len() - k,
{
    if k + 1 < t.len() && !(t[k] == ']' && t[k + 1] == ']') && t[k] != '\n' {
        lemma_lazy_close_bounds(t, k + 1);
    }
}

/// The runs between occurrences: the text before each occurrence in
/// scan order, and the text after the last one.
pub open spec fn spec_split_pieces(t: Seq<char>, i: int, start: int) -> Seq<Seq<char>>
    decreases t.len() - i,
{
    if i < 0 || i >= t.len() {
        seq![t.subrange(start, t.len() as int)]
    } else {
        match spec_occurrence_end(t, i) {
            Some(e) => {
                proof {
                    lemma_occurrence_end_bounds(t, i);
                }
                seq![t.subrange(start, i)] + spec_split_pieces(t, e, e)
            },
            None => spec_split_pieces(t, i + 1, start),
        }
    }
}

/// Finds the end of the occurrence starting at `i`, when one does.
fn occurrence_end(t: &str, i: usize) -> (r: Option<usize>)
    requires
        i < t@.len(),
    ensures
        match (r, spec_occurrence_end(t@, i as int)) {
            (Some(a), Some(b)) => a as int == b && i < a <= t@.len(),
            (None, None) => true,
            _ => false,
        },
{
    let n = t.unicode_len();
    proof {
        lemma_lazy_close_bounds(t@, i as int + 2);
        lemma_lazy_close_bounds(t@, i as int + 3);
        if spec_occurrence_end(t@, i as int) is Some {
            lemma_occurrence_end_bounds(t@, i as int);
        }
    }
    let c0 = t.get_char(i);
    if c0 == '[' && i + 1 < n && t.get_char(i + 1) == '[' {
        match lazy_close(t, i + 2) {
            Some(j) => Some(j + 2),
            None => None,
        }
    } else if c0 == '#' {
        if i + 1 < n && in_class(CharClass::Word, t.get_char(i + 1)) {
            Some(run_end(CharClass::Word, t, i + 1))
        } else if n - i > 2 && t.get_char(i + 1) == '[' && t.get_char(i + 2) == '[' {
            match lazy_close(t, i + 3) {
                Some(j) => Some(j + 2),
                None => None,
            }
        } else {
            None
        }
    } else {
        None
    }
}

/// Finds the first closing `]]` a lazy bracket body reaches.
fn lazy_close(t: &str, k: usize) -> (r: Option<usize>)
    requires
        k <= t@.len(),
    ensures
        match (r, spec_lazy_close(t@, k as int)) {
            (Some(a), Some(b)) => a as int == b && a + 2 <= t@.len(),
            (None, None) => true,
            _ => false,
        },
{
    let n = t.unicode_len();
    if n < 2 {
        return None;
    }
    let mut j = k;
    while j < n - 1
        invariant
            k <= j <= n,
            2 <= n == t@.len(),
            spec_lazy_close(t@, k as int) == spec_lazy_close(t@, j as int),
        decreases n - j,
    {
        if t.get_char(j) == ']' && t.get_char(j + 1) == ']' {
            return Some(j);
        }
        if t.get_char(j) == '\n' {
            return None;
        }
        j = j + 1;
    }
    None
}

/// A classified run `e` stands for the text `s`: it keeps the text
/// verbatim and carries the variant the text's shape prescribes.
pub open spec fn spec_type_enum_is(e: TypeEnum, s: Seq<char>) -> bool {
    match e {
        TypeEnum::Tag(x) => x@ == s && spec_csv_is_tag(s),
        TypeEnum::Backlink(x) => x@ == s && !spec_csv_is_tag(s) && spec_csv_is_backlink(s),
        TypeEnum::Text(x) => x@ == s && !spec_csv_is_tag(s) && !spec_csv_is_backlink(s),
    }
}

/// The split runs of every text leaf among paragraph children.
pub open spec fn spec_para_runs(ps: Seq<MdNode>, i: int) -> Seq<Seq<char>>
    decreases ps.len() - i,
{
    if i < 0 || i >= ps.len() {
        Seq::empty()
    } else {
        (match ps[i] {
            MdNode::Text { value } => spec_split_pieces(value@, 0, 0),
            _ => Seq::<Seq<char>>::empty(),
        }) + spec_para_runs(ps, i + 1)
    }
}

/// The content runs of a list item: the split runs of each text
/// leaf under each paragraph child, in order.
pub open spec fn spec_item_runs(cs: Seq<MdNode>, i: int) -> Seq<Seq<char>>
    decreases cs.len() - i,
{
    if i < 0 || i >= cs.len() {
        Seq::empty()
    } else {
        (match cs[i] {
            MdNode::Paragraph { children } => spec_para_runs(children@, 0),
            _ => Seq::<Seq<char>>::empty(),
        }) + spec_item_runs(cs, i + 1)
    }
}

/// How many list items stand directly among `is`.
pub open spec fn spec_count_direct_items(is: Seq<MdNode>) -> nat
    decreases is,
{
    if is.len() == 0 {
        0
    } else {
        spec_count_direct_items(is.drop_last()) + (if is.last() is ListItem {
            1nat
        } else {
            0nat
        })
    }
}

/// How many sub-blocks the list children among `cs` yield: one per
/// direct item of each list child.
pub open spec fn spec_count_subs(cs: Seq<MdNode>) -> nat
    decreases cs,
{
    if cs.len() == 0 {
        0
    } else {
        spec_count_subs(cs.drop_last()) + (match cs.last() {
            MdNode::List { children, .. } => spec_count_direct_items(children@),
            _ => 0,
        })
    }
}

/// The block built for one list item: its index, its content runs as
/// plain text, and one sub-block per direct item of each list child,
/// indexed by position.
pub open spec fn spec_lblock_built(b: Block, idx: int, item: MdNode) -> bool
    decreases item, 2int,
{
    match item {
        MdNode::ListItem { children, .. } => {
            let runs = spec_item_runs(children@, 0);
            &&& b.idx == idx
            &&& b.content@.len() == runs.len()
            &&& (forall|k: int|
                0 <= k < runs.len() ==> ((#[trigger] b.content@[k]) matches TypeEnum::Text(s)
                    && s@ == runs[k]))
            &&& b.sub_blocks@.len() == spec_count_subs(children@)
            &&& spec_lsubs_built(b.sub_blocks@, children@)
        },
        _ => false,
    }
}

/// The sub-blocks built for the list children among `cs`,
/// concatenated in child order and indexed by their final position.
pub open spec fn spec_lsubs_built(bs: Seq<Block>, cs: Seq<MdNode>) -> bool
    decreases cs, 1int,
{
    if cs.len() == 0 {
        bs.len() == 0
    } else {
        match cs.last() {
            MdNode::List { children, .. } => {
                let c = spec_count_direct_items(children@) as int;
                &&& bs.len() >= c
                &&& spec_lsubs_built(bs.take(bs.len() - c), cs.drop_last())
                &&& spec_litems_built(
                    bs.subrange(bs.len() - c, bs.len() as int),
                    children@,
                    bs.len() - c,
                )
            },
            _ => spec_lsubs_built(bs, cs.drop_last()),
        }
    }
}

/// The blocks built for the direct items among `is`, the block for
/// the item at position `p` carrying index `off + p`.
pub open spec fn spec_litems_built(bs: Seq<Block>, is: Seq<MdNode>, off: int) -> bool
    decreases is, 0int,
{
    if is.len() == 0 {
        bs.len() == 0
    } else {
        match is.last() {
            MdNode::ListItem { .. } => {
                &&& bs.len() >= 1
                &&& spec_litems_built(bs.drop_last(), is.drop_last(), off)
                &&& spec_lblock_built(bs.last(), off + bs.len() - 1, is.last())
            },
            _ => spec_litems_built(bs, is.drop_last(), off),
        }
    }
}

/// One hierarchical list item in the early model: its index among
/// its siblings, its classified content runs, and its sub-blocks.
#[derive(Debug, PartialEq)]
pub struct Block {
    /// The index of the block in its list.
    pub idx: usize,
    /// The text content of the block divided into runs.
    pub content: Vec<TypeEnum>,
    /// The sub-blocks of this block.
    pub sub_blocks: Vec<Block>,
}

impl Block {
    /// Builds the block of one list item: content runs from the text
    /// leaves of its paragraph children, and one sub-block per item
    /// of each list child, indexed by position.
    #[verifier::loop_isolation(false)]
    pub fn new(idx: usize, list_item: &MdNode) -> (r: Block)
        requires
            *list_item matches MdNode::ListItem { .. },
        ensures
            spec_lblock_built(r, idx as int, *list_item),
        decreases *list_item,
    {
        match list_item {
            MdNode::ListItem { children: kids, .. } => {
                let mut content: Vec<TypeEnum> = Vec::new();
                let mut sub_blocks: Vec<Block> = Vec::new();
                let mut ci: usize = 0;
                proof {
                    assert(kids@.take(0) =~= Seq::<MdNode>::empty());
                    assert(spec_item_runs_upto(kids@, 0) =~= Seq::<Seq<char>>::empty());
                }
                while ci < kids.len()
                    invariant
                        0 <= ci <= kids@.len(),
                        content@.len() == spec_item_runs_upto(kids@, ci as int).len(),
                        forall|k: int|
                            0 <= k < content@.len() ==> ((#[trigger] content@[k]) matches
                                TypeEnum::Text(s) && s@ == spec_item_runs_upto(
                                kids@,
                                ci as int,
                            )[k]),
                        sub_blocks@.len() == spec_count_subs(kids@.take(ci as int)),
                        spec_lsubs_built(sub_blocks@, kids@.take(ci as int)),
                    decreases kids@.len() - ci,
                {
                    let child = &kids[ci];
                    match child {
                        MdNode::List { children: items, .. } => {
                            let ghost outer_len = sub_blocks@.len() as int;
                            let mut gi: usize = 0;
                            proof {
                                assert(items@.take(0) =~= Seq::<MdNode>::empty());
                                assert(sub_blocks@.subrange(outer_len, sub_blocks@.len() as int)
                                    =~= Seq::<Block>::empty());
                                assert(sub_blocks@.take(outer_len) =~= sub_blocks@);
                            }
                            while gi < items.len()
                                invariant
                                    0 <= gi <= items@.len(),
                                    0 <= outer_len <= sub_blocks@.len(),
                                    sub_blocks@.take(outer_len).len() == spec_count_subs(
                                        kids@.take(ci as int),
                                    ),
                                    spec_lsubs_built(
                                        sub_blocks@.take(outer_len),
                                        kids@.take(ci as int),
                                    ),
                                    sub_blocks@.len() - outer_len == spec_count_direct_items(
                                        items@.take(gi as int),
                                    ),
                                    spec_litems_built(
                                        sub_blocks@.subrange(outer_len, sub_blocks@.len() as int),
                                        items@.take(gi as int),
                                        outer_len,
                                    ),
                                decreases items@.len() - gi,
                            {
                                let g = &items[gi];
                                match g {
                                    MdNode::ListItem { .. } => {
                                        proof {
                                            assert((*list_item)->ListItem_children == *kids);
                                            assert(decreases_to!(*list_item => (
                                            *list_item)->ListItem_children));
                                            assert(decreases_to!((
                                            *list_item)->ListItem_children => kids@));
                                            assert(decreases_to!(kids@ => kids@[ci as int]));
                                            assert(kids@[ci as int] == *child);
                                            assert((*child)->List_children == *items);
                                            assert(decreases_to!(*child => (
                                            *child)->List_children));
                                            assert(decreases_to!((
                                            *child)->List_children => items@));
                                            assert(decreases_to!(items@ => items@[gi as int]));
                                            assert(items@[gi as int] == *g);
                                            assert(decreases_to!(*list_item => *g));
                                        }
                                        let sub = Block::new(sub_blocks.len(), g);
                                        let ghost pre = sub_blocks@;
                                        sub_blocks.push(sub);
                                        proof {
                                            assert(sub_blocks@.take(outer_len) =~= pre.take(
                                                outer_len,
                                            ));
                                            assert(sub_blocks@.subrange(
                                                outer_len,
                                                sub_blocks@.len() as int,
                                            ).drop_last() =~= pre.subrange(
                                                outer_len,
                                                pre.len() as int,
                                            ));
                                            assert(items@.take(gi + 1).drop_last() =~= items@.take(
                                                gi as int,
                                            ));
                                            assert(items@.take(gi + 1).last() == items@[gi as int]);
                                        }
                                    },
                                    _ => {
                                        proof {
                                            assert(items@.take(gi + 1).drop_last() =~= items@.take(
                                                gi as int,
                                            ));
                                            assert(items@.take(gi + 1).last() == items@[gi as int]);
                                        }
                                    },
                                }
                                gi = gi + 1;
                            }
                            proof {
                                assert(items@.take(items@.len() as int) =~= items@);
                                let cs1 = kids@.take(ci + 1);
                                assert(cs1.drop_last() =~= kids@.take(ci as int));
                                assert(cs1.last() == kids@[ci as int]);
                                assert(kids@[ci as int] == *child);
                                assert((*child)->List_children == *items);
                                assert(spec_item_runs_upto(kids@, ci + 1) =~= spec_item_runs_upto(
                                    kids@,
                                    ci as int,
                                ));
                                let c = spec_count_direct_items(items@) as int;
                                assert(sub_blocks@.take(sub_blocks@.len() - c) =~= sub_blocks@.take(
                                    outer_len,
                                ));
                                assert(sub_blocks@.subrange(
                                    sub_blocks@.len() - c,
                                    sub_blocks@.len() as int,
                                ) =~= sub_blocks@.subrange(outer_len, sub_blocks@.len() as int));
                                assert(spec_lsubs_built(sub_blocks@, cs1));
                            }
                        },
                        MdNode::Paragraph { children: ps } => {
                            let runs = para_runs(ps);
                            let ghost pre_len = content@.len() as int;
                            let mut ri: usize = 0;
                            while ri < runs.len()
                                invariant
                                    0 <= ri <= runs@.len(),
                                    content@.len() == pre_len + ri,
                                    pre_len == spec_item_runs_upto(kids@, ci as int).len(),
                                    forall|k: int|
                                        0 <= k < pre_len ==> ((#[trigger] content@[k]) matches
                                            TypeEnum::Text(s) && s@ == spec_item_runs_upto(
                                            kids@,
                                            ci as int,
                                        )[k]),
                                    forall|k: int|
                                        0 <= k < ri ==> ((#[trigger] content@[pre_len + k]) matches
                                            TypeEnum::Text(s) && s@ == spec_para_runs(ps@, 0)[k]),
                                    runs@.len() == spec_para_runs(ps@, 0).len(),
                                    forall|k: int|
                                        0 <= k < runs@.len() ==> (#[trigger] runs@[k])@
                                            == spec_para_runs(ps@, 0)[k],
                                decreases runs@.len() - ri,
                            {
                                let piece = runs[ri].clone();
                                content.push(TypeEnum::Text(piece));
                                ri = ri + 1;
                            }
                            proof {
                                let cs1 = kids@.take(ci + 1);
                                assert(spec_item_runs_upto(kids@, ci + 1) =~= spec_item_runs_upto(
                                    kids@,
                                    ci as int,
                                ) + spec_para_runs(ps@, 0));
                                assert(cs1.drop_last() =~= kids@.take(ci as int));
                                assert(cs1.last() == kids@[ci as int]);
                                assert(spec_count_subs(kids@.take(ci + 1)) == spec_count_subs(
                                    kids@.take(ci as int),
                                ));
                                assert(spec_lsubs_built(sub_blocks@, kids@.take(ci + 1)));
                                assert forall|k: int| 0 <= k < content@.len() implies ((
                                #[trigger] content@[k]) matches TypeEnum::Text(s) && s@
                                    == spec_item_runs_upto(kids@, ci + 1)[k]) by {
                                    if k >= pre_len {
                                        let k2 = k - pre_len;
                                        assert(content@[pre_len + k2] matches TypeEnum::Text(s2)
                                            && s2@ == spec_para_runs(ps@, 0)[k2]);
                                    }
                                }
                            }
                        },
                        _ => {
                            proof {
                                let cs1 = kids@.take(ci + 1);
                                assert(cs1.drop_last() =~= kids@.take(ci as int));
                                assert(cs1.last() == kids@[ci as int]);
                                assert(spec_item_runs_upto(kids@, ci + 1) =~= spec_item_runs_upto(
                                    kids@,
                                    ci as int,
                                ));
                            }
                        },
                    }
                    ci = ci + 1;
                }
                proof {
                    assert(kids@.take(kids@.len() as int) =~= kids@);
                    lemma_item_runs_upto_full(kids@, kids@.len() as int);
                    assert(spec_item_runs(kids@, kids@.len() as int) =~= Seq::<Seq<char>>::empty());
                    assert(spec_item_runs_upto(kids@, kids@.len() as int) + Seq::<
                        Seq<char>,
                    >::empty() =~= spec_item_runs_upto(kids@, kids@.len() as int));
                }
                Block { idx, content, sub_blocks }
            },
            _ => {
                assert(false);
                Block { idx, content: Vec::new(), sub_blocks: Vec::new() }
            },
        }
    }
}

/// The content runs of the item children before `i`.
pub open spec fn spec_item_runs_upto(cs: Seq<MdNode>, i: int) -> Seq<Seq<char>>
    decreases i,
{
    if i <= 0 || i > cs.len() {
        Seq::empty()
    } else {
        spec_item_runs_upto(cs, i - 1) + (match cs[i - 1] {
            MdNode::Paragraph { children } => spec_para_runs(children@, 0),
            _ => Seq::<Seq<char>>::empty(),
        })
    }
}

/// The prefix runs reach the full runs at the end of the children.
proof fn lemma_item_runs_upto_full(cs: Seq<MdNode>, i: int)
    requires
        0 <= i <= cs.len(),
    ensures
        spec_item_runs_upto(cs, i) + spec_item_runs(cs, i) =~= spec_item_runs(cs, 0),
    decreases i,
{
    if i > 0 {
        lemma_item_runs_upto_full(cs, i - 1);
        assert(spec_item_runs_upto(cs, i) + spec_item_runs(cs, i) =~= spec_item_runs_upto(
            cs,
            i - 1,
        ) + spec_item_runs(cs, i - 1));
    }
}

/// Collects the split runs of every text leaf among `ps`.
fn para_runs(ps: &Vec<MdNode>) -> (r: Vec<String>)
    ensures
        r@.len() == spec_para_runs(ps@, 0).len(),
        forall|k: int| 0 <= k < r@.len() ==> (#[trigger] r@[k])@ == spec_para_runs(ps@, 0)[k],
{
    let n = ps.len();
    let mut r: Vec<String> = Vec::new();
    let mut i: usize = 0;
    proof {
        assert(Seq::new(r@.len(), |k: int| r@[k]@) =~= Seq::<Seq<char>>::empty());
        assert(Seq::new(r@.len(), |k: int| r@[k]@) + spec_para_runs(ps@, 0) =~= spec_para_runs(
            ps@,
            0,
        ));
    }
    while i < n
        invariant
            0 <= i <= n,
            n == ps@.len(),
            spec_para_runs(ps@, 0) == Seq::new(r@.len(), |k: int| r@[k]@) + spec_para_runs(
                ps@,
                i as int,
            ),
        decreases n - i,
    {
        match &ps[i] {
            MdNode::Text { value } => {
                let runs = TypeEnum::from_text(value.clone());
                let mut j: usize = 0;
                let ghost pre = r@;
                while j < runs.len()
                    invariant
                        0 <= j <= runs@.len(),
                        r@.len() == pre.len() + j,
                        forall|k: int| 0 <= k < pre.len() ==> r@[k] == pre[k],
                        forall|k: int|
                            0 <= k < j ==> (#[trigger] r@[pre.len() + k])@ == spec_split_pieces(
                                value@,
                                0,
                                0,
                            )[k],
                        runs@.len() == spec_split_pieces(value@, 0, 0).len(),
                        forall|k: int|
                            0 <= k < runs@.len() ==> ((#[trigger] runs@[k]) matches TypeEnum::Text(
                                s,
                            ) && s@ == spec_split_pieces(value@, 0, 0)[k]),
                    decreases runs@.len() - j,
                {
                    match &runs[j] {
                        TypeEnum::Text(s) => {
                            r.push(s.clone());
                        },
                        _ => {
                            proof {
                                assert(false);
                            }
                        },
                    }
                    j = j + 1;
                }
                proof {
                    let lhs = Seq::new(r@.len(), |k: int| r@[k]@);
                    let rhs = Seq::new(pre.len(), |k: int| pre[k]@) + spec_split_pieces(
                        value@,
                        0,
                        0,
                    );
                    assert forall|k: int| 0 <= k < lhs.len() implies lhs[k] == rhs[k] by {
                        if k < pre.len() {
                            assert(r@[k] == pre[k]);
                        } else {
                            let k2 = k - pre.len();
                            assert(r@[pre.len() + k2]@ == spec_split_pieces(value@, 0, 0)[k2]);
                        }
                    }
                    assert(lhs =~= rhs);
                }
            },
            _ => {},
        }
        i = i + 1;
    }
    proof {
        assert(Seq::new(r@.len(), |k: int| r@[k]@) + spec_para_runs(ps@, n as int) =~= Seq::new(
            r@.len(),
            |k: int| r@[k]@,
        ));
    }
    r
}

/// The attribute pair a line declares: its key trimmed, its value
/// split at commas, when the line holds exactly one `::`.
pub open spec fn spec_attr_line(l: Seq<char>) -> Seq<(Seq<char>, Seq<Seq<char>>)> {
    match crate::strutil::spec_line_kv(l) {
        Some(kv) => seq![(crate::strutil::spec_trim(kv.0), crate::strutil::spec_csv_items(kv.1))],
        None => Seq::empty(),
    }
}

/// The attribute pairs of a run of lines, in line order.
pub open spec fn spec_text_attr_lines(ls: Seq<Seq<char>>, i: int) -> Seq<
    (Seq<char>, Seq<Seq<char>>),
>
    decreases ls.len() - i,
{
    if i < 0 || i >= ls.len() {
        Seq::empty()
    } else {
        spec_attr_line(ls[i]) + spec_text_attr_lines(ls, i + 1)
    }
}

/// The attribute pairs of the text leaves among paragraph children.
pub open spec fn spec_para_attrs(ps: Seq<MdNode>, i: int) -> Seq<(Seq<char>, Seq<Seq<char>>)>
    decreases ps.len() - i,
{
    if i < 0 || i >= ps.len() {
        Seq::empty()
    } else {
        (match ps[i] {
            MdNode::Text { value } => spec_text_attr_lines(crate::strutil::spec_lines(value@), 0),
            _ => Seq::<(Seq<char>, Seq<Seq<char>>)>::empty(),
        }) + spec_para_attrs(ps, i + 1)
    }
}

/// The attribute pairs of every paragraph child of the document, in
/// document order.
pub open spec fn spec_root_attrs(cs: Seq<MdNode>, i: int) -> Seq<(Seq<char>, Seq<Seq<char>>)>
    decreases cs.len() - i,
{
    if i < 0 || i >= cs.len() {
        Seq::empty()
    } else {
        (match cs[i] {
            MdNode::Paragraph { children } => spec_para_attrs(children@, 0),
            _ => Seq::<(Seq<char>, Seq<Seq<char>>)>::empty(),
        }) + spec_root_attrs(cs, i + 1)
    }
}

/// The key and value texts of held attribute pairs.
pub open spec fn spec_attr_views(ps: Seq<(String, Vec<TypeEnum>)>) -> Seq<
    (Seq<char>, Seq<Seq<char>>),
> {
    Seq::new(
        ps.len(),
        |i: int| (ps[i].0@, Seq::new(ps[i].1@.len(), |k: int| pieces_text_view(ps[i].1@, k))),
    )
}

/// Every held attribute value carries the variant its text's shape
/// prescribes.
pub open spec fn spec_attrs_classified(ps: Seq<(String, Vec<TypeEnum>)>) -> bool {
    forall|i: int, k: int|
        0 <= i < ps.len() && 0 <= k < ps[i].1@.len() ==> spec_type_enum_is(
            #[trigger] ps[i].1@[k],
            pieces_text_view(ps[i].1@, k),
        )
}

/// Classifies the attribute pair of one line, when it declares one.
fn line_attr(l: &str) -> (r: Option<(String, Vec<TypeEnum>)>)
    ensures
        match r {
            Some(p) => {
                &&& spec_attr_line(l@).len() == 1
                &&& p.0@ == spec_attr_line(l@)[0].0
                &&& p.1@.len() == spec_attr_line(l@)[0].1.len()
                &&& (forall|k: int|
                    0 <= k < p.1@.len() ==> pieces_text_view(p.1@, k) == spec_attr_line(
                        l@,
                    )[0].1[k])
                &&& (forall|k: int|
                    0 <= k < p.1@.len() ==> spec_type_enum_is(
                        #[trigger] p.1@[k],
                        pieces_text_view(p.1@, k),
                    ))
            },
            None => spec_attr_line(l@).len() == 0,
        },
{
    match crate::strutil::line_kv(l) {
        None => None,
        Some((key, value)) => {
            let trimmed = crate::strutil::trim_str(key.as_str());
            let items = crate::strutil::csv_items(value.as_str());
            let mut enums: Vec<TypeEnum> = Vec::new();
            let mut k: usize = 0;
            while k < items.len()
                invariant
                    0 <= k <= items@.len(),
                    enums@.len() == k,
                    items.deep_view() == crate::strutil::spec_csv_items(value@),
                    items.deep_view().len() == items@.len(),
                    forall|x: int|
                        0 <= x < k ==> pieces_text_view(enums@, x) == items.deep_view()[x],
                    forall|x: int|
                        0 <= x < k ==> spec_type_enum_is(
                            #[trigger] enums@[x],
                            pieces_text_view(enums@, x),
                        ),
                decreases items@.len() - k,
            {
                proof {
                    assert(items.deep_view()[k as int] == items@[k as int]@);
                }
                let ghost pre = enums@;
                enums.push(TypeEnum::from_csv_item(items[k].clone()));
                proof {
                    assert forall|x: int| 0 <= x < enums@.len() implies pieces_text_view(enums@, x)
                        == (if x < pre.len() {
                        pieces_text_view(pre, x)
                    } else {
                        items.deep_view()[k as int]
                    }) by {
                        if x < pre.len() {
                            assert(enums@[x] == pre[x]);
                        }
                    }
                }
                k = k + 1;
            }
            Some((trimmed, enums))
        },
    }
}

/// Collects the attribute pairs of one text leaf, line by line.
fn text_attrs(value: &str) -> (r: Vec<(String, Vec<TypeEnum>)>)
    ensures
        spec_attr_views(r@) == spec_text_attr_lines(crate::strutil::spec_lines(value@), 0),
        spec_attrs_classified(r@),
{
    let ls = crate::strutil::lines_of(value);
    let mut r: Vec<(String, Vec<TypeEnum>)> = Vec::new();
    let mut i: usize = 0;
    proof {
        assert(spec_attr_views(r@) =~= Seq::<(Seq<char>, Seq<Seq<char>>)>::empty());
        assert(spec_attr_views(r@) + spec_text_attr_lines(ls.deep_view(), 0)
            =~= spec_text_attr_lines(ls.deep_view(), 0));
    }
    while i < ls.len()
        invariant
            0 <= i <= ls@.len(),
            ls.deep_view() == crate::strutil::spec_lines(value@),
            ls.deep_view().len() == ls@.len(),
            spec_text_attr_lines(ls.deep_view(), 0) == spec_attr_views(r@)
                + spec_text_attr_lines(ls.deep_view(), i as int),
            spec_attrs_classified(r@),
        decreases ls@.len() - i,
    {
        proof {
            assert(ls.deep_view()[i as int] == ls@[i as int]@);
        }
        match line_attr(ls[i].as_str()) {
            Some(p) => {
                let ghost pre = r@;
                r.push(p);
                proof {
                    assert forall|x: int|
                        0 <= x < spec_attr_views(r@).len() implies spec_attr_views(r@)[x] == (
                    spec_attr_views(pre) + spec_attr_line(ls.deep_view()[i as int]))[x] by {
                        if x < pre.len() {
                            assert(r@[x] == pre[x]);
                        }
                    }
                    assert(spec_attr_views(r@) =~= spec_attr_views(pre) + spec_attr_line(
                        ls.deep_view()[i as int],
                    ));
                }
            },
            None => {
                proof {
                    assert(spec_attr_views(r@) + Seq::<(Seq<char>, Seq<Seq<char>>)>::empty()
                        =~= spec_attr_views(r@));
                }
            },
        }
        i = i + 1;
    }
    proof {
        assert(spec_attr_views(r@) + spec_text_attr_lines(ls.deep_view(), ls@.len() as int)
            =~= spec_attr_views(r@));
    }
    r
}

/// One document in the early model: its attributes as declared
/// key and value pairs in document order (a later pair shadows an
/// earlier one with the same key when read as a mapping), and its
/// top-level blocks.
#[derive(Debug, PartialEq)]
pub struct File {
    /// The index of the file in the ingestion walk.
    pub id: usize,
    /// The path of the file.
    pub path: String,
    /// The declared attributes of the file, in document order.
    pub attributes: Vec<(String, Vec<TypeEnum>)>,
    /// The top-level blocks of the file.
    pub blocks: Vec<Block>,
}

impl File {
    /// Builds one document: attributes from every paragraph child,
    /// blocks from every list child.
    pub fn new(id: usize, ast: &MdNode, path: String) -> (r: File)
        requires
            crate::file::spec_children_of(*ast) is Some,
        ensures
            r.id == id,
            r.path == path,
            spec_attr_views(r.attributes@) == spec_root_attrs(
                crate::file::spec_children_of(*ast)->Some_0,
                0,
            ),
            spec_attrs_classified(r.attributes@),
            r.blocks@.len() == spec_count_subs(crate::file::spec_children_of(*ast)->Some_0),
            spec_lsubs_built(r.blocks@, crate::file::spec_children_of(*ast)->Some_0),
    {
        File {
            id,
            path,
            attributes: File::get_attributes(ast),
            blocks: File::get_blocks(ast),
        }
    }

    /// Collects the `key:: values` attribute lines of every
    /// paragraph child: keys trimmed, values split at commas and
    /// classified.
    #[verifier::loop_isolation(false)]
    fn get_attributes(ast: &MdNode) -> (r: Vec<(String, Vec<TypeEnum>)>)
        requires
            crate::file::spec_children_of(*ast) is Some,
        ensures
            spec_attr_views(r@) == spec_root_attrs(crate::file::spec_children_of(*ast)->Some_0, 0),
            spec_attrs_classified(r@),
    {
        let cs: &Vec<MdNode> = match ast {
            MdNode::Root { children } => children,
            MdNode::List { children, .. } => children,
            MdNode::ListItem { children, .. } => children,
            MdNode::Paragraph { children } => children,
            _ => {
                assert(false);
                return Vec::new();
            },
        };
        let mut r: Vec<(String, Vec<TypeEnum>)> = Vec::new();
        let mut i: usize = 0;
        proof {
            assert(spec_attr_views(r@) =~= Seq::<(Seq<char>, Seq<Seq<char>>)>::empty());
            assert(spec_attr_views(r@) + spec_root_attrs(cs@, 0) =~= spec_root_attrs(cs@, 0));
        }
        while i < cs.len()
            invariant
                0 <= i <= cs@.len(),
                spec_root_attrs(cs@, 0) == spec_attr_views(r@) + spec_root_attrs(cs@, i as int),
                spec_attrs_classified(r@),
            decreases cs@.len() - i,
        {
            match &cs[i] {
                MdNode::Paragraph { children: ps } => {
                    let mut j: usize = 0;
                    while j < ps.len()
                        invariant
                            0 <= j <= ps@.len(),
                            0 <= i < cs@.len(),
                            cs@[i as int] matches MdNode::Paragraph { .. },
                            spec_root_attrs(cs@, 0) == spec_attr_views(r@) + (spec_para_attrs(
                                ps@,
                                j as int,
                            ) + spec_root_attrs(cs@, i + 1)),
                            spec_attrs_classified(r@),
                        decreases ps@.len() - j,
                    {
                        match &ps[j] {
                            MdNode::Text { value } => {
                                let mut ta = text_attrs(value.as_str());
                                let ghost pre = r@;
                                let ghost ta_view = ta@;
                                r.append(&mut ta);
                                proof {
                                    assert forall|x: int|
                                        0 <= x < spec_attr_views(r@).len() implies spec_attr_views(
                                        r@,
                                    )[x] == (spec_attr_views(pre) + spec_attr_views(ta_view))[x] by {
                                        if x < pre.len() {
                                            assert(r@[x] == pre[x]);
                                        } else {
                                            assert(r@[x] == ta_view[x - pre.len()]);
                                        }
                                    }
                                    assert(spec_attr_views(r@) =~= spec_attr_views(pre)
                                        + spec_attr_views(ta_view));
                                    assert forall|a: int, b: int|
                                        0 <= a < r@.len() && 0 <= b < r@[a].1@.len() implies
                                        spec_type_enum_is(
                                        #[trigger] r@[a].1@[b],
                                        pieces_text_view(r@[a].1@, b),
                                    ) by {
                                        if a < pre.len() {
                                            assert(r@[a] == pre[a]);
                                            assert(spec_type_enum_is(
                                                pre[a].1@[b],
                                                pieces_text_view(pre[a].1@, b),
                                            ));
                                        } else {
                                            assert(r@[a] == ta_view[a - pre.len()]);
                                            assert(spec_type_enum_is(
                                                ta_view[a - pre.len()].1@[b],
                                                pieces_text_view(ta_view[a - pre.len()].1@, b),
                                            ));
                                        }
                                    }
                                }
                            },
                            _ => {},
                        }
                        j = j + 1;
                    }
                },
                _ => {},
            }
            i = i + 1;
        }
        r
    }

    /// Builds the top-level blocks: one per item of every list
    /// child, indexed by position.
    #[verifier::loop_isolation(false)]
    fn get_blocks(ast: &MdNode) -> (r: Vec<Block>)
        requires
            crate::file::spec_children_of(*ast) is Some,
        ensures
            r@.len() == spec_count_subs(crate::file::spec_children_of(*ast)->Some_0),
            spec_lsubs_built(r@, crate::file::spec_children_of(*ast)->Some_0),
    {
        let cs: &Vec<MdNode> = match ast {
            MdNode::Root { children } => children,
            MdNode::List { children, .. } => children,
            MdNode::ListItem { children, .. } => children,
            MdNode::Paragraph { children } => children,
            _ => {
                assert(false);
                return Vec::new();
            },
        };
        let mut blocks: Vec<Block> = Vec::new();
        let mut ci: usize = 0;
        proof {
            assert(cs@.take(0) =~= Seq::<MdNode>::empty());
        }
        while ci < cs.len()
            invariant
                0 <= ci <= cs@.len(),
                blocks@.len() == spec_count_subs(cs@.take(ci as int)),
                spec_lsubs_built(blocks@, cs@.take(ci as int)),
            decreases cs@.len() - ci,
        {
            let child = &cs[ci];
            match child {
                MdNode::List { children: items, .. } => {
                    let ghost outer_len = blocks@.len() as int;
                    let mut gi: usize = 0;
                    proof {
                        assert(items@.take(0) =~= Seq::<MdNode>::empty());
                        assert(blocks@.subrange(outer_len, blocks@.len() as int) =~= Seq::<
                            Block,
                        >::empty());
                        assert(blocks@.take(outer_len) =~= blocks@);
                    }
                    while gi < items.len()
                        invariant
                            0 <= gi <= items@.len(),
                            0 <= ci < cs@.len(),
                            0 <= outer_len <= blocks@.len(),
                            blocks@.take(outer_len).len() == spec_count_subs(cs@.take(ci as int)),
                            spec_lsubs_built(blocks@.take(outer_len), cs@.take(ci as int)),
                            blocks@.len() - outer_len == spec_count_direct_items(
                                items@.take(gi as int),
                            ),
                            spec_litems_built(
                                blocks@.subrange(outer_len, blocks@.len() as int),
                                items@.take(gi as int),
                                outer_len,
                            ),
                        decreases items@.len() - gi,
                    {
                        let g = &items[gi];
                        match g {
                            MdNode::ListItem { .. } => {
                                let sub = Block::new(blocks.len(), g);
                                let ghost pre = blocks@;
                                blocks.push(sub);
                                proof {
                                    assert(blocks@.take(outer_len) =~= pre.take(outer_len));
                                    assert(blocks@.subrange(
                                        outer_len,
                                        blocks@.len() as int,
                                    ).drop_last() =~= pre.subrange(outer_len, pre.len() as int));
                                    assert(items@.take(gi + 1).drop_last() =~= items@.take(
                                        gi as int,
                                    ));
                                    assert(items@.take(gi + 1).last() == items@[gi as int]);
                                }
                            },
                            _ => {
                                proof {
                                    assert(items@.take(gi + 1).drop_last() =~= items@.take(
                                        gi as int,
                                    ));
                                    assert(items@.take(gi + 1).last() == items@[gi as int]);
                                }
                            },
                        }
                        gi = gi + 1;
                    }
                    proof {
                        assert(items@.take(items@.len() as int) =~= items@);
                        let cs1 = cs@.take(ci + 1);
                        assert(cs1.drop_last() =~= cs@.take(ci as int));
                        assert(cs1.last() == cs@[ci as int]);
                        assert(cs@[ci as int] == *child);
                        assert((*child)->List_children == *items);
                        let c = spec_count_direct_items(items@) as int;
                        assert(blocks@.take(blocks@.len() - c) =~= blocks@.take(outer_len));
                        assert(blocks@.subrange(blocks@.len() - c, blocks@.len() as int)
                            =~= blocks@.subrange(outer_len, blocks@.len() as int));
                        assert(spec_lsubs_built(blocks@, cs1));
                    }
                },
                _ => {
                    proof {
                        let cs1 = cs@.take(ci + 1);
                        assert(cs1.drop_last() =~= cs@.take(ci as int));
                        assert(cs1.last() == cs@[ci as int]);
                    }
                },
            }
            ci = ci + 1;
        }
        proof {
            assert(cs@.take(cs@.len() as int) =~= cs@);
        }
        blocks
    }
}

} // verus!
