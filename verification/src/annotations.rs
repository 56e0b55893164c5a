//! The annotation grammars: inline identifiers, `key:: value`
//! properties, wikilinks and tags, extracted from a text span by
//! verified scanners.
//!
//! Each grammar is stated as a specification over the character
//! sequence: a match is found at the leftmost position where one
//! starts, its token runs are maximal, and the scan resumes after the
//! end of the match, so matches never overlap.

use vstd::prelude::*;

use crate::chars::CharClass;
use crate::chars::lemma_run_end_bounds;
use crate::chars::run_end;
use crate::chars::in_class;
use crate::chars::spec_is_id_char;
use crate::chars::spec_is_lower;
use crate::chars::spec_run_end;
use crate::strutil::str_eq;

verus! {

/// An inline identifier declaration starts at `i`: the literal
/// `id:: ` followed by at least one identifier character.
pub open spec fn spec_id_decl_at(t: Seq<char>, i: int) -> bool {
    &&& 0 <= i
    &&& i + 5 < t.len()
    &&& t[i] == 'i'
    &&& t[i + 1] == 'd'
    &&& t[i + 2] == ':'
    &&& t[i + 3] == ':'
    &&& t[i + 4] == ' '
    &&& spec_is_id_char(t[i + 5])
}

/// The first position at or after `i` where an identifier declaration
/// starts.
pub open spec fn spec_find_id_decl(t: Seq<char>, i: int) -> Option<int>
    decreases t.len() - i,
{
    if i < 0 || i + 5 >= t.len() {
        None
    } else if spec_id_decl_at(t, i) {
        Some(i)
    } else {
        spec_find_id_decl(t, i + 1)
    }
}

/// The identifier a text declares inline: the maximal identifier
/// token after the leftmost `id:: `, when there is one.
pub open spec fn spec_declared_id(t: Seq<char>) -> Option<Seq<char>> {
    match spec_find_id_decl(t, 0) {
        None => None,
        Some(i) => Some(t.subrange(i + 5, spec_run_end(CharClass::IdChar, t, i + 5))),
    }
}

/// Relies on `uuid::Uuid::new_v4` and its `Display` form: a freshly
/// generated version-4 UUID prints as 36 characters of lowercase
/// hexadecimal digits and hyphens.
#[verifier::external_body]
pub(crate) fn fresh_id() -> (r: String)
    ensures
        r@.len() == 36,
        forall|k: int| 0 <= k < 36 ==> spec_is_id_char(#[trigger] r@[k]),
{
    uuid::Uuid::new_v4().to_string()
}

/// Finds the inline identifier a text declares, when it declares one.
pub fn find_declared_id(t: &str) -> (r: Option<String>)
    ensures
        match (r, spec_declared_id(t@)) {
            (Some(a), Some(b)) => a@ == b,
            (None, None) => true,
            _ => false,
        },
{
    let n = t.unicode_len();
    if n < 6 {
        return None;
    }
    let mut i: usize = 0;
    while i < n - 5
        invariant
            0 <= i <= n - 5,
            6 <= n == t@.len(),
            spec_find_id_decl(t@, 0) == spec_find_id_decl(t@, i as int),
        decreases n - i,
    {
        if t.get_char(i) == 'i' && t.get_char(i + 1) == 'd' && t.get_char(i + 2) == ':'
            && t.get_char(i + 3) == ':' && t.get_char(i + 4) == ' ' && in_class(
            CharClass::IdChar,
            t.get_char(i + 5),
        ) {
            assert(spec_id_decl_at(t@, i as int));
            let e = run_end(CharClass::IdChar, t, i + 5);
            let token = t.substring_char(i + 5, e).to_owned();
            return Some(token);
        }
        assert(!spec_id_decl_at(t@, i as int));
        i = i + 1;
    }
    assert(spec_find_id_decl(t@, i as int) is None);
    None
}

/// Extracts the identifier of a block: the inline declared identifier
/// when the text holds one, else a freshly generated identifier of 36
/// identifier characters.
pub fn extract_id(content: &str) -> (r: String)
    ensures
        match spec_declared_id(content@) {
            Some(token) => r@ == token,
            None => r@.len() == 36 && forall|k: int|
                0 <= k < 36 ==> spec_is_id_char(#[trigger] r@[k]),
        },
{
    match find_declared_id(content) {
        Some(token) => token,
        None => fresh_id(),
    }
}

/// A property match starts at `i`: a maximal run of lowercase letters
/// (the key), the literal `:: `, then at least one lowercase letter
/// (the value run).
pub open spec fn spec_prop_at(t: Seq<char>, i: int) -> bool {
    let k = spec_run_end(CharClass::Lower, t, i);
    &&& 0 <= i < t.len()
    &&& spec_is_lower(t[i])
    &&& k + 3 < t.len()
    &&& t[k] == ':'
    &&& t[k + 1] == ':'
    &&& t[k + 2] == ' '
    &&& spec_is_lower(t[k + 3])
}

/// The key of the property match starting at `i`.
pub open spec fn spec_prop_key(t: Seq<char>, i: int) -> Seq<char> {
    t.subrange(i, spec_run_end(CharClass::Lower, t, i))
}

/// The value of the property match starting at `i`.
pub open spec fn spec_prop_val(t: Seq<char>, i: int) -> Seq<char> {
    let k = spec_run_end(CharClass::Lower, t, i);
    t.subrange(k + 3, spec_run_end(CharClass::Lower, t, k + 3))
}

/// The position right after the property match starting at `i`.
pub open spec fn spec_prop_end(t: Seq<char>, i: int) -> int {
    spec_run_end(CharClass::Lower, t, spec_run_end(CharClass::Lower, t, i) + 3)
}

/// A property match ends after its start and within the text.
pub proof fn lemma_prop_end(t: Seq<char>, i: int)
    requires
        spec_prop_at(t, i),
    ensures
        i < spec_prop_end(t, i) <= t.len(),
        i < spec_run_end(CharClass::Lower, t, i),
{
    lemma_run_end_bounds(CharClass::Lower, t, i);
    let k = spec_run_end(CharClass::Lower, t, i);
    assert(spec_run_end(CharClass::Lower, t, i) == spec_run_end(CharClass::Lower, t, i + 1));
    lemma_run_end_bounds(CharClass::Lower, t, i + 1);
    lemma_run_end_bounds(CharClass::Lower, t, k + 3);
}

/// The property key and value pairs of a text, in match order, with
/// every match consumed before the scan resumes.
pub open spec fn spec_props_from(t: Seq<char>, i: int) -> Seq<(Seq<char>, Seq<char>)>
    decreases t.len() - i,
{
    if i < 0 || i >= t.len() {
        Seq::empty()
    } else if spec_prop_at(t, i) {
        proof {
            lemma_prop_end(t, i);
        }
        seq![(spec_prop_key(t, i), spec_prop_val(t, i))] + spec_props_from(t, spec_prop_end(t, i))
    } else {
        spec_props_from(t, i + 1)
    }
}

/// The key and value views of a vector of string pairs.
pub open spec fn spec_pair_views(s: Seq<(String, String)>) -> Seq<(Seq<char>, Seq<char>)> {
    Seq::new(s.len(), |i: int| (s[i].0@, s[i].1@))
}

/// The mapping a pair sequence folds to: pairs apply left to right,
/// a later value for a key replaces an earlier one, and keys in
/// `excl` are left out.
pub open spec fn spec_pairs_map(ps: Seq<(Seq<char>, Seq<char>)>, excl: Set<Seq<char>>) -> Map<
    Seq<char>,
    Seq<char>,
>
    decreases ps.len(),
{
    if ps.len() == 0 {
        Map::empty()
    } else {
        let m = spec_pairs_map(ps.drop_last(), excl);
        if excl.contains(ps.last().0) {
            m
        } else {
            m.insert(ps.last().0, ps.last().1)
        }
    }
}

/// No excluded key reaches the folded mapping.
pub proof fn lemma_pairs_map_excludes(
    ps: Seq<(Seq<char>, Seq<char>)>,
    excl: Set<Seq<char>>,
    k: Seq<char>,
)
    requires
        excl.contains(k),
    ensures
        !spec_pairs_map(ps, excl).dom().contains(k),
    decreases ps.len(),
{
    if ps.len() > 0 {
        lemma_pairs_map_excludes(ps.drop_last(), excl, k);
    }
}

/// Scans a text for its property matches, in match order.
pub fn scan_props(t: &str) -> (r: Vec<(String, String)>)
    ensures
        spec_pair_views(r@) == spec_props_from(t@, 0),
{
    let n = t.unicode_len();
    let mut r: Vec<(String, String)> = Vec::new();
    let mut i: usize = 0;
    proof {
        assert(spec_pair_views(r@) =~= Seq::<(Seq<char>, Seq<char>)>::empty());
        assert(spec_pair_views(r@) + spec_props_from(t@, 0) =~= spec_props_from(t@, 0));
    }
    while i < n
        invariant
            0 <= i <= n,
            n == t@.len(),
            spec_props_from(t@, 0) == spec_pair_views(r@) + spec_props_from(t@, i as int),
        decreases n - i,
    {
        if in_class(CharClass::Lower, t.get_char(i)) {
            let k = run_end(CharClass::Lower, t, i);
            if n - k > 3 && t.get_char(k) == ':' && t.get_char(k + 1) == ':' && t.get_char(k + 2)
                == ' ' && in_class(CharClass::Lower, t.get_char(k + 3)) {
                assert(spec_prop_at(t@, i as int));
                proof {
                    lemma_prop_end(t@, i as int);
                }
                let e = run_end(CharClass::Lower, t, k + 3);
                let key = t.substring_char(i, k).to_owned();
                let val = t.substring_char(k + 3, e).to_owned();
                r.push((key, val));
                proof {
                    assert(spec_pair_views(r@) =~= spec_pair_views(r@.drop_last()).push(
                        (spec_prop_key(t@, i as int), spec_prop_val(t@, i as int)),
                    ));
                    assert(spec_pair_views(r@) + spec_props_from(t@, e as int)
                        =~= (spec_pair_views(r@.drop_last()) + (seq![
                        (spec_prop_key(t@, i as int), spec_prop_val(t@, i as int)),
                    ] + spec_props_from(t@, e as int))));
                }
                i = e;
            } else {
                assert(!spec_prop_at(t@, i as int)) by {
                    if spec_prop_at(t@, i as int) {
                        lemma_run_end_bounds(CharClass::Lower, t@, i as int);
                    }
                }
                i = i + 1;
            }
        } else {
            assert(!spec_prop_at(t@, i as int));
            i = i + 1;
        }
    }
    proof {
        assert(spec_pair_views(r@) + spec_props_from(t@, i as int) =~= spec_pair_views(r@));
    }
    r
}

/// The reserved key `id`, consumed by identifier extraction and never
/// a property.
pub open spec fn spec_id_key() -> Seq<char> {
    seq!['i', 'd']
}

/// The set of keys a block's property extraction leaves out.
pub open spec fn spec_block_excluded_keys() -> Set<Seq<char>> {
    Set::empty().insert(spec_id_key())
}

/// The mapping of property keys to values a block's text declares:
/// every `key:: value` match in order, later values replacing earlier
/// ones, the reserved key `id` left out.
pub fn extract_properties(content: &str) -> (r: PropMap)
    ensures
        r.wf(),
        r@ == spec_pairs_map(spec_props_from(content@, 0), spec_block_excluded_keys()),
        !r@.dom().contains(spec_id_key()),
{
    let pairs = scan_props(content);
    let r = pairs_to_map_excluding(pairs, true, false);
    proof {
        lemma_pairs_map_excludes(
            spec_props_from(content@, 0),
            spec_block_excluded_keys(),
            spec_id_key(),
        );
    }
    r
}

/// The reserved key `title`.
pub open spec fn spec_title_key() -> Seq<char> {
    seq!['t', 'i', 't', 'l', 'e']
}

/// The reserved key `tags`.
pub open spec fn spec_tags_key() -> Seq<char> {
    seq!['t', 'a', 'g', 's']
}

/// The set of keys a file's property extraction leaves out.
pub open spec fn spec_file_excluded_keys() -> Set<Seq<char>> {
    Set::empty().insert(spec_id_key()).insert(spec_title_key()).insert(spec_tags_key())
}

/// The mapping of property keys to values a file's leading text
/// declares: as for a block, and the reserved keys `title` and `tags`
/// are left out as well.
pub fn extract_file_properties(top_text: &str) -> (r: PropMap)
    ensures
        r.wf(),
        r@ == spec_pairs_map(spec_props_from(top_text@, 0), spec_file_excluded_keys()),
{
    let pairs = scan_props(top_text);
    pairs_to_map_excluding(pairs, true, true)
}

/// Folds scanned pairs into a property map, excluding the reserved
/// key `id` and, when asked, `title` and `tags` as well.
fn pairs_to_map_excluding(pairs: Vec<(String, String)>, excl_id: bool, excl_file: bool) -> (r:
    PropMap)
    requires
        excl_id,
    ensures
        r.wf(),
        excl_file ==> r@ == spec_pairs_map(spec_pair_views(pairs@), spec_file_excluded_keys()),
        !excl_file ==> r@ == spec_pairs_map(spec_pair_views(pairs@), spec_block_excluded_keys()),
{
    let ghost excl: Set<Seq<char>> = if excl_file {
        spec_file_excluded_keys()
    } else {
        spec_block_excluded_keys()
    };
    let mut m = PropMap::new();
    let mut idx: usize = 0;
    proof {
        assert(spec_pair_views(pairs@).take(0) =~= Seq::<(Seq<char>, Seq<char>)>::empty());
    }
    while idx < pairs.len()
        invariant
            0 <= idx <= pairs.len(),
            excl_id && (excl == if excl_file {
                spec_file_excluded_keys()
            } else {
                spec_block_excluded_keys()
            }),
            m.wf(),
            m@ == spec_pairs_map(spec_pair_views(pairs@).take(idx as int), excl),
        decreases pairs.len() - idx,
    {
        let key_is_id = str_eq(pairs[idx].0.as_str(), "id");
        let key_is_title = excl_file && str_eq(pairs[idx].0.as_str(), "title");
        let key_is_tags = excl_file && str_eq(pairs[idx].0.as_str(), "tags");
        proof {
            reveal_strlit("id");
            reveal_strlit("title");
            reveal_strlit("tags");
            assert("id"@ =~= spec_id_key());
            assert("title"@ =~= spec_title_key());
            assert("tags"@ =~= spec_tags_key());
        }
        let excluded = key_is_id || key_is_title || key_is_tags;
        if !excluded {
            let pair = (pairs[idx].0.clone(), pairs[idx].1.clone());
            m.insert(pair.0, pair.1);
        }
        proof {
            let pv = spec_pair_views(pairs@);
            assert(pv.take(idx + 1).drop_last() =~= pv.take(idx as int));
            assert(pv.take(idx + 1).last() == pv[idx as int]);
            assert(excluded == excl.contains(pv[idx as int].0));
        }
        idx = idx + 1;
    }
    proof {
        assert(spec_pair_views(pairs@).take(pairs@.len() as int) =~= spec_pair_views(pairs@));
    }
    m
}

/// A mapping of property keys to values, each key held once.
#[derive(Debug, PartialEq)]
pub struct PropMap {
    pairs: Vec<(String, String)>,
}

impl View for PropMap {
    type V = Map<Seq<char>, Seq<char>>;

    closed spec fn view(&self) -> Map<Seq<char>, Seq<char>> {
        spec_pairs_map(spec_pair_views(self.pairs@), Set::empty())
    }
}

impl PropMap {
    /// The views of the held pairs, in insertion order.
    pub closed spec fn spec_pairs(&self) -> Seq<(Seq<char>, Seq<char>)> {
        spec_pair_views(self.pairs@)
    }

    /// Each key is held at most once.
    pub open spec fn wf(&self) -> bool {
        forall|i: int, j: int|
            0 <= i < j < self.spec_pairs().len() ==> (#[trigger] self.spec_pairs()[i]).0 != (
            #[trigger] self.spec_pairs()[j]).0
    }

    /// An empty property map.
    pub fn new() -> (r: PropMap)
        ensures
            r.wf(),
            r@ == Map::<Seq<char>, Seq<char>>::empty(),
            r.spec_pairs() == Seq::<(Seq<char>, Seq<char>)>::empty(),
    {
        let r = PropMap { pairs: Vec::new() };
        proof {
            assert(r.spec_pairs() =~= Seq::<(Seq<char>, Seq<char>)>::empty());
        }
        r
    }

    /// Maps `key` to `value`, replacing any value the key held.
    pub fn insert(&mut self, key: String, value: String)
        requires
            old(self).wf(),
        ensures
            final(self).wf(),
            final(self)@ == old(self)@.insert(key@, value@),
    {
        let n = self.pairs.len();
        let mut j: usize = 0;
        while j < n
            invariant
                0 <= j <= n,
                n == self.pairs@.len(),
                *self == *old(self),
                old(self).wf(),
                forall|k: int| 0 <= k < j ==> (#[trigger] self.spec_pairs()[k]).0 != key@,
            decreases n - j,
        {
            if str_eq(self.pairs[j].0.as_str(), key.as_str()) {
                self.pairs.set(j, (key, value));
                proof {
                    let oldp = old(self).spec_pairs();
                    let newp = self.spec_pairs();
                    assert(newp =~= oldp.update(j as int, (oldp[j as int].0, newp[j as int].1)));
                    lemma_pairs_map_update(oldp, j as int, newp[j as int].1);
                }
                return ;
            }
            j = j + 1;
        }
        self.pairs.push((key, value));
        proof {
            let oldp = old(self).spec_pairs();
            let newp = self.spec_pairs();
            assert(newp.drop_last() =~= oldp);
            assert(newp.last() == (key@, value@));
            assert forall|a: int, b: int| 0 <= a < b < newp.len() implies (#[trigger] newp[a]).0
                != (#[trigger] newp[b]).0 by {
                assert(newp[a] == oldp[a]);
                if b < newp.len() - 1 {
                    assert(newp[b] == oldp[b]);
                } else {
                    assert(newp[b].0 == key@);
                }
            }
        }
    }

    /// The value held for a key.
    pub fn get(&self, key: &str) -> (r: Option<&String>)
        requires
            self.wf(),
        ensures
            match r {
                Some(v) => self@.dom().contains(key@) && v@ == self@[key@],
                None => !self@.dom().contains(key@),
            },
    {
        proof {
            lemma_pairs_map_index(self.spec_pairs());
        }
        let n = self.pairs.len();
        let mut j: usize = 0;
        while j < n
            invariant
                0 <= j <= n,
                n == self.pairs@.len(),
                self.wf(),
                forall|k: int| 0 <= k < j ==> (#[trigger] self.spec_pairs()[k]).0 != key@,
            decreases n - j,
        {
            if str_eq(self.pairs[j].0.as_str(), key) {
                proof {
                    lemma_pairs_map_index(self.spec_pairs());
                    assert(self.spec_pairs()[j as int] == (
                        self.pairs@[j as int].0@,
                        self.pairs@[j as int].1@,
                    ));
                    assert(self.spec_pairs()[j as int].0 == key@);
                }
                return Some(&self.pairs[j].1);
            }
            j = j + 1;
        }
        proof {
            lemma_pairs_map_no_key(self.spec_pairs(), key@);
        }
        None
    }

    /// The held pairs, in insertion order.
    pub fn entries(&self) -> (r: &Vec<(String, String)>)
        ensures
            spec_pair_views(r@) == self.spec_pairs(),
    {
        &self.pairs
    }

    /// How many keys the map holds.
    pub fn len(&self) -> (r: usize)
        requires
            self.wf(),
        ensures
            r == self@.dom().len(),
    {
        proof {
            lemma_pairs_map_len(self.spec_pairs());
        }
        self.pairs.len()
    }
}

/// Replacing the value at a held key folds to the same mapping as a
/// fresh insert of that key.
proof fn lemma_pairs_map_update(ps: Seq<(Seq<char>, Seq<char>)>, j: int, v: Seq<char>)
    requires
        0 <= j < ps.len(),
        forall|a: int, b: int|
            0 <= a < b < ps.len() ==> (#[trigger] ps[a]).0 != (#[trigger] ps[b]).0,
    ensures
        spec_pairs_map(ps.update(j, (ps[j].0, v)), Set::empty()) == spec_pairs_map(
            ps,
            Set::empty(),
        ).insert(ps[j].0, v),
    decreases ps.len(),
{
    let upd = ps.update(j, (ps[j].0, v));
    if j == ps.len() - 1 {
        assert(upd.drop_last() =~= ps.drop_last());
        assert(spec_pairs_map(upd, Set::empty()) =~= spec_pairs_map(ps, Set::empty()).insert(
            ps[j].0,
            v,
        ));
    } else {
        assert(upd.drop_last() =~= ps.drop_last().update(j, (ps[j].0, v)));
        lemma_pairs_map_update(ps.drop_last(), j, v);
        assert(ps.last().0 != ps[j].0);
        assert(spec_pairs_map(upd, Set::empty()) =~= spec_pairs_map(ps, Set::empty()).insert(
            ps[j].0,
            v,
        ));
    }
}

/// With unique keys, each held pair is in the folded mapping.
proof fn lemma_pairs_map_index(ps: Seq<(Seq<char>, Seq<char>)>)
    requires
        forall|a: int, b: int|
            0 <= a < b < ps.len() ==> (#[trigger] ps[a]).0 != (#[trigger] ps[b]).0,
    ensures
        forall|k: int|
            0 <= k < ps.len() ==> spec_pairs_map(ps, Set::empty()).dom().contains(
                (#[trigger] ps[k]).0,
            ) && spec_pairs_map(ps, Set::empty())[ps[k].0] == ps[k].1,
    decreases ps.len(),
{
    if ps.len() > 0 {
        lemma_pairs_map_index(ps.drop_last());
        assert forall|k: int| 0 <= k < ps.len() implies spec_pairs_map(
            ps,
            Set::empty(),
        ).dom().contains((#[trigger] ps[k]).0) && spec_pairs_map(ps, Set::empty())[ps[k].0]
            == ps[k].1 by {
            if k < ps.len() - 1 {
                assert(ps.drop_last()[k] == ps[k]);
                assert(ps.last().0 != ps[k].0);
            }
        }
    }
}

/// A key no pair holds is not in the folded mapping.
proof fn lemma_pairs_map_no_key(ps: Seq<(Seq<char>, Seq<char>)>, key: Seq<char>)
    requires
        forall|k: int| 0 <= k < ps.len() ==> (#[trigger] ps[k]).0 != key,
    ensures
        !spec_pairs_map(ps, Set::empty()).dom().contains(key),
    decreases ps.len(),
{
    if ps.len() > 0 {
        lemma_pairs_map_no_key(ps.drop_last(), key);
    }
}

/// With unique keys, the folded mapping holds exactly one entry per
/// pair.
proof fn lemma_pairs_map_len(ps: Seq<(Seq<char>, Seq<char>)>)
    requires
        forall|a: int, b: int|
            0 <= a < b < ps.len() ==> (#[trigger] ps[a]).0 != (#[trigger] ps[b]).0,
    ensures
        spec_pairs_map(ps, Set::empty()).dom().finite(),
        spec_pairs_map(ps, Set::empty()).dom().len() == ps.len(),
    decreases ps.len(),
{
    if ps.len() > 0 {
        lemma_pairs_map_len(ps.drop_last());
        lemma_pairs_map_no_key(ps.drop_last(), ps.last().0);
        assert(spec_pairs_map(ps, Set::empty()).dom() =~= spec_pairs_map(
            ps.drop_last(),
            Set::empty(),
        ).dom().insert(ps.last().0));
    }
}

/// A wikilink match starts at `i`: a whitespace character, `[[`, at
/// least one word-or-space character, then `]]`. A bracket pair
/// preceded by `#` instead of whitespace is a tag, not a wikilink.
pub open spec fn spec_wikilink_at(t: Seq<char>, i: int) -> bool {
    let e = spec_run_end(CharClass::WordOrSpace, t, i + 3);
    &&& 0 <= i
    &&& i + 2 < t.len()
    &&& crate::chars::spec_is_space(t[i])
    &&& t[i + 1] == '['
    &&& t[i + 2] == '['
    &&& e > i + 3
    &&& e + 1 < t.len()
    &&& t[e] == ']'
    &&& t[e + 1] == ']'
}

/// The wikilinks of a text, in match order, each capture trimmed,
/// duplicates preserved.
pub open spec fn spec_wikilinks_from(t: Seq<char>, i: int) -> Seq<Seq<char>>
    decreases t.len() - i,
{
    if i < 0 || i >= t.len() {
        Seq::empty()
    } else if spec_wikilink_at(t, i) {
        let e = spec_run_end(CharClass::WordOrSpace, t, i + 3);
        seq![crate::strutil::spec_trim(t.subrange(i + 3, e))] + spec_wikilinks_from(t, e + 2)
    } else {
        spec_wikilinks_from(t, i + 1)
    }
}

/// Extracts the wikilinks of a text: every bracket link preceded by
/// whitespace, trimmed, in match order.
pub fn extract_wikilinks(content: &str) -> (r: Vec<String>)
    ensures
        r.deep_view() == spec_wikilinks_from(content@, 0),
{
    let t = content;
    let n = t.unicode_len();
    let mut r: Vec<String> = Vec::new();
    let mut i: usize = 0;
    proof {
        assert(r.deep_view() =~= Seq::<Seq<char>>::empty());
        assert(r.deep_view() + spec_wikilinks_from(t@, 0) =~= spec_wikilinks_from(t@, 0));
    }
    while i < n
        invariant
            0 <= i <= n,
            n == t@.len(),
            spec_wikilinks_from(t@, 0) == r.deep_view() + spec_wikilinks_from(t@, i as int),
        decreases n - i,
    {
        let mut matched = false;
        if crate::chars::is_space(t.get_char(i)) && n - i > 3 && t.get_char(i + 1) == '['
            && t.get_char(i + 2) == '[' {
            let e = run_end(CharClass::WordOrSpace, t, i + 3);
            if e > i + 3 && n - e > 1 && t.get_char(e) == ']' && t.get_char(e + 1) == ']' {
                assert(spec_wikilink_at(t@, i as int));
                let capture = crate::strutil::trim_str(t.substring_char(i + 3, e));
                r.push(capture);
                proof {
                    assert(r.deep_view() =~= r.deep_view().take(r.deep_view().len() - 1).push(
                        crate::strutil::spec_trim(t@.subrange(i as int + 3, e as int)),
                    ));
                }
                i = e + 2;
                matched = true;
            }
        }
        if !matched {
            assert(!spec_wikilink_at(t@, i as int));
            i = i + 1;
        }
    }
    r
}

/// A bracket pair preceded by `#` is a tag occurrence and never a
/// wikilink occurrence: a wikilink needs whitespace before its
/// brackets, and `#` is not whitespace.
pub proof fn lemma_hash_bracket_is_tag_not_wikilink(t: Seq<char>, i: int)
    requires
        spec_tag_bracket_at(t, i),
    ensures
        !spec_wikilink_at(t, i),
{
}

/// A bracket tag match starts at `i`: `#[[`, at least one
/// word-or-space character, then `]]`.
pub open spec fn spec_tag_bracket_at(t: Seq<char>, i: int) -> bool {
    let e = spec_run_end(CharClass::WordOrSpace, t, i + 3);
    &&& 0 <= i
    &&& i + 2 < t.len()
    &&& t[i] == '#'
    &&& t[i + 1] == '['
    &&& t[i + 2] == '['
    &&& e > i + 3
    &&& e + 1 < t.len()
    &&& t[e] == ']'
    &&& t[e + 1] == ']'
}

/// A word tag match starts at `i`: `#` then at least one word
/// character. At a position where both forms match, the bracket form
/// wins.
pub open spec fn spec_tag_word_at(t: Seq<char>, i: int) -> bool {
    &&& 0 <= i
    &&& i + 1 < t.len()
    &&& t[i] == '#'
    &&& crate::chars::spec_is_word(t[i + 1])
}

/// The tags of a text, in match order: the capture of each bracket
/// or word tag, untrimmed, duplicates preserved.
pub open spec fn spec_tags_from(t: Seq<char>, i: int) -> Seq<Seq<char>>
    decreases t.len() - i,
{
    if i < 0 || i >= t.len() {
        Seq::empty()
    } else if spec_tag_bracket_at(t, i) {
        let e = spec_run_end(CharClass::WordOrSpace, t, i + 3);
        seq![t.subrange(i + 3, e)] + spec_tags_from(t, e + 2)
    } else if spec_tag_word_at(t, i) {
        let e = spec_run_end(CharClass::Word, t, i + 1);
        proof {
            lemma_run_end_bounds(CharClass::Word, t, i + 2);
            assert(spec_run_end(CharClass::Word, t, i + 1) == spec_run_end(
                CharClass::Word,
                t,
                i + 2,
            ));
        }
        seq![t.subrange(i + 1, e)] + spec_tags_from(t, e)
    } else {
        spec_tags_from(t, i + 1)
    }
}

/// Extracts the inline tags of a text: every `#[[bracket tag]]` or
/// `#word` occurrence, in match order.
pub fn extract_tags(content: &str) -> (r: Vec<String>)
    ensures
        r.deep_view() == spec_tags_from(content@, 0),
{
    let t = content;
    let n = t.unicode_len();
    let mut r: Vec<String> = Vec::new();
    let mut i: usize = 0;
    proof {
        assert(r.deep_view() =~= Seq::<Seq<char>>::empty());
        assert(r.deep_view() + spec_tags_from(t@, 0) =~= spec_tags_from(t@, 0));
    }
    while i < n
        invariant
            0 <= i <= n,
            n == t@.len(),
            spec_tags_from(t@, 0) == r.deep_view() + spec_tags_from(t@, i as int),
        decreases n - i,
    {
        let mut matched = false;
        if t.get_char(i) == '#' {
            if n - i > 3 && t.get_char(i + 1) == '[' && t.get_char(i + 2) == '[' {
                let e = run_end(CharClass::WordOrSpace, t, i + 3);
                if e > i + 3 && n - e > 1 && t.get_char(e) == ']' && t.get_char(e + 1) == ']' {
                    assert(spec_tag_bracket_at(t@, i as int));
                    let capture = t.substring_char(i + 3, e).to_owned();
                    r.push(capture);
                    proof {
                        assert(r.deep_view() =~= r.deep_view().take(r.deep_view().len() - 1).push(
                            t@.subrange(i as int + 3, e as int),
                        ));
                    }
                    i = e + 2;
                    matched = true;
                }
            }
            if !matched && n - i > 1 && in_class(CharClass::Word, t.get_char(i + 1)) {
                assert(!spec_tag_bracket_at(t@, i as int));
                assert(spec_tag_word_at(t@, i as int));
                let e = run_end(CharClass::Word, t, i + 1);
                proof {
                    lemma_run_end_bounds(CharClass::Word, t@, i as int + 2);
                    assert(spec_run_end(CharClass::Word, t@, i as int + 1) == spec_run_end(
                        CharClass::Word,
                        t@,
                        i as int + 2,
                    ));
                }
                let capture = t.substring_char(i + 1, e).to_owned();
                r.push(capture);
                proof {
                    assert(r.deep_view() =~= r.deep_view().take(r.deep_view().len() - 1).push(
                        t@.subrange(i as int + 1, e as int),
                    ));
                }
                i = e;
                matched = true;
            }
        }
        if !matched {
            assert(!spec_tag_bracket_at(t@, i as int));
            assert(!spec_tag_word_at(t@, i as int));
            i = i + 1;
        }
    }
    r
}

} // verus!
