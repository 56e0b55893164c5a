//! Verified string helpers: comparison, trimming, splitting and the
//! title-derivation rules for document paths.

use vstd::prelude::*;

use crate::chars::spec_is_space;

verus! {

/// Decides whether two string slices hold the same characters.
pub fn str_eq(a: &str, b: &str) -> (r: bool)
    ensures
        r == (a@ == b@),
{
    let na = a.unicode_len();
    let nb = b.unicode_len();
    if na != nb {
        proof {
            assert(a@ != b@) by {
                assert(a@.len() != b@.len());
            }
        }
        return false;
    }
    let mut i: usize = 0;
    while i < na
        invariant
            0 <= i <= na,
            na == a@.len() && na == b@.len(),
            forall|k: int| 0 <= k < i ==> a@[k] == b@[k],
        decreases na - i,
    {
        if a.get_char(i) != b.get_char(i) {
            proof {
                assert(a@[i as int] != b@[i as int]);
            }
            return false;
        }
        i = i + 1;
    }
    proof {
        assert(a@ =~= b@);
    }
    true
}

/// The first position at or after `i` holding a character other than
/// whitespace.
pub open spec fn spec_skip_spaces(t: Seq<char>, i: int) -> int
    decreases t.len() - i,
{
    if i < 0 || i >= t.len() {
        i
    } else if spec_is_space(t[i]) {
        spec_skip_spaces(t, i + 1)
    } else {
        i
    }
}

/// The position after the last non-whitespace character strictly
/// before `j`, scanning from the right.
pub open spec fn spec_rskip_spaces(t: Seq<char>, j: int) -> int
    decreases j,
{
    if j <= 0 || j > t.len() {
        0
    } else if spec_is_space(t[j - 1]) {
        spec_rskip_spaces(t, j - 1)
    } else {
        j
    }
}

/// The text with leading and trailing whitespace removed.
pub open spec fn spec_trim(t: Seq<char>) -> Seq<char> {
    let f = spec_skip_spaces(t, 0);
    if f == t.len() {
        Seq::empty()
    } else {
        t.subrange(f, spec_rskip_spaces(t, t.len() as int))
    }
}

proof fn lemma_skip_spaces_bounds(t: Seq<char>, i: int)
    requires
        0 <= i <= t.len(),
    ensures
        i <= spec_skip_spaces(t, i) <= t.len(),
        forall|k: int| i <= k < spec_skip_spaces(t, i) ==> spec_is_space(t[k]),
        spec_skip_spaces(t, i) < t.len() ==> !spec_is_space(t[spec_skip_spaces(t, i)]),
    decreases t.len() - i,
{
    if i < t.len() && spec_is_space(t[i]) {
        lemma_skip_spaces_bounds(t, i + 1);
    }
}

proof fn lemma_rskip_spaces_bounds(t: Seq<char>, j: int)
    requires
        0 <= j <= t.len(),
    ensures
        0 <= spec_rskip_spaces(t, j) <= j,
        forall|k: int| spec_rskip_spaces(t, j) <= k < j ==> spec_is_space(t[k]),
        spec_rskip_spaces(t, j) > 0 ==> !spec_is_space(t[spec_rskip_spaces(t, j) - 1]),
    decreases j,
{
    if 0 < j <= t.len() && spec_is_space(t[j - 1]) {
        lemma_rskip_spaces_bounds(t, j - 1);
    }
}

/// When some character is not whitespace, the left scan stops at or
/// before it and the right scan stops after it.
pub proof fn lemma_trim_brackets(t: Seq<char>)
    requires
        spec_skip_spaces(t, 0) < t.len(),
    ensures
        spec_skip_spaces(t, 0) < spec_rskip_spaces(t, t.len() as int) <= t.len(),
{
    lemma_skip_spaces_bounds(t, 0);
    lemma_rskip_spaces_bounds(t, t.len() as int);
    let f = spec_skip_spaces(t, 0);
    let e = spec_rskip_spaces(t, t.len() as int);
    if e <= f {
        assert(spec_is_space(t[f]));
    }
}

/// Removes leading and trailing whitespace from a string slice.
pub fn trim_str(s: &str) -> (r: String)
    ensures
        r@ == spec_trim(s@),
{
    let n = s.unicode_len();
    let mut f: usize = 0;
    while f < n && crate::chars::is_space(s.get_char(f))
        invariant
            0 <= f <= n,
            n == s@.len(),
            spec_skip_spaces(s@, 0) == spec_skip_spaces(s@, f as int),
        decreases n - f,
    {
        f = f + 1;
    }
    if f == n {
        return String::new();
    }
    proof {
        lemma_trim_brackets(s@);
    }
    let mut e: usize = n;
    while e > f && crate::chars::is_space(s.get_char(e - 1))
        invariant
            f <= e <= n,
            n == s@.len(),
            f < n && !spec_is_space(s@[f as int]),
            spec_rskip_spaces(s@, n as int) == spec_rskip_spaces(s@, e as int),
        decreases e,
    {
        e = e - 1;
    }
    proof {
        if e > f {
            assert(spec_rskip_spaces(s@, e as int) == e as int);
        } else {
            assert(e == f);
            lemma_rskip_spaces_bounds(s@, f as int);
            lemma_trim_brackets(s@);
            assert(false);
        }
    }
    let piece = s.substring_char(f, e);
    piece.to_owned()
}

/// The first position at or after `i` holding character `c`.
pub open spec fn spec_find_char(t: Seq<char>, c: char, i: int) -> Option<int>
    decreases t.len() - i,
{
    if i < 0 || i >= t.len() {
        None
    } else if t[i] == c {
        Some(i)
    } else {
        spec_find_char(t, c, i + 1)
    }
}

/// A found position lies in range, holds `c`, and nothing before it does.
pub proof fn lemma_find_char(t: Seq<char>, c: char, i: int)
    requires
        0 <= i <= t.len(),
    ensures
        match spec_find_char(t, c, i) {
            Some(j) => i <= j < t.len() && t[j] == c && forall|k: int| i <= k < j ==> t[k] != c,
            None => forall|k: int| i <= k < t.len() ==> t[k] != c,
        },
    decreases t.len() - i,
{
    if i < t.len() && t[i] != c {
        lemma_find_char(t, c, i + 1);
    }
}

/// A line with a trailing carriage return loses it.
pub open spec fn spec_strip_cr(l: Seq<char>) -> Seq<char> {
    if l.len() > 0 && l.last() == '\r' {
        l.drop_last()
    } else {
        l
    }
}

/// The lines of a text, split on line feeds, each without a trailing
/// carriage return; a final empty piece after the last line feed is
/// not a line.
pub open spec fn spec_lines(t: Seq<char>) -> Seq<Seq<char>>
    decreases t.len(),
{
    if t.len() == 0 {
        Seq::empty()
    } else {
        match spec_find_char(t, '\n', 0) {
            None => seq![spec_strip_cr(t)],
            Some(i) => {
                proof {
                    lemma_find_char(t, '\n', 0);
                }
                seq![spec_strip_cr(t.take(i))] + spec_lines(t.subrange(i + 1, t.len() as int))
            },
        }
    }
}

/// The comma-separated items of a text, each trimmed.
pub open spec fn spec_csv_items(t: Seq<char>) -> Seq<Seq<char>>
    decreases t.len(),
{
    match spec_find_char(t, ',', 0) {
        None => seq![spec_trim(t)],
        Some(i) => {
            proof {
                lemma_find_char(t, ',', 0);
            }
            seq![spec_trim(t.take(i))] + spec_csv_items(t.subrange(i + 1, t.len() as int))
        },
    }
}

/// The first position at or after `i` where `::` starts.
pub open spec fn spec_find_dcolon(t: Seq<char>, i: int) -> Option<int>
    decreases t.len() - i,
{
    if i < 0 || i + 1 >= t.len() {
        None
    } else if t[i] == ':' && t[i + 1] == ':' {
        Some(i)
    } else {
        spec_find_dcolon(t, i + 1)
    }
}

/// A line splits into a key and a value when it holds exactly one
/// `::` separator: the key is the part before it, the value the part
/// after it, neither trimmed.
pub open spec fn spec_line_kv(l: Seq<char>) -> Option<(Seq<char>, Seq<char>)> {
    match spec_find_dcolon(l, 0) {
        None => None,
        Some(i) => if spec_find_dcolon(l, i + 2) is None {
            Some((l.take(i), l.subrange(i + 2, l.len() as int)))
        } else {
            None
        },
    }
}

/// The namespace decoding of a file name: each `___` becomes a `/`,
/// scanning left to right.
pub open spec fn spec_decode_sep(t: Seq<char>) -> Seq<char>
    decreases t.len(),
{
    if t.len() >= 3 && t[0] == '_' && t[1] == '_' && t[2] == '_' {
        seq!['/'] + spec_decode_sep(t.subrange(3, t.len() as int))
    } else if t.len() > 0 {
        seq![t[0]] + spec_decode_sep(t.subrange(1, t.len() as int))
    } else {
        Seq::empty()
    }
}

/// The file name without a trailing `.md` extension.
pub open spec fn spec_strip_md(t: Seq<char>) -> Seq<char> {
    if t.len() >= 3 && t[t.len() - 3] == '.' && t[t.len() - 2] == 'm' && t[t.len() - 1] == 'd' {
        t.take(t.len() - 3)
    } else {
        t
    }
}

/// The last position before `j` holding character `c`.
pub open spec fn spec_rfind_char(t: Seq<char>, c: char, j: int) -> Option<int>
    decreases j,
{
    if j <= 0 || j > t.len() {
        None
    } else if t[j - 1] == c {
        Some(j - 1)
    } else {
        spec_rfind_char(t, c, j - 1)
    }
}

/// The file name of a path: the part after the last `/`, or the whole
/// path when it has none.
pub open spec fn spec_file_name(p: Seq<char>) -> Seq<char> {
    match spec_rfind_char(p, '/', p.len() as int) {
        None => p,
        Some(i) => p.subrange(i + 1, p.len() as int),
    }
}

/// The title a path derives: its file name, without the `.md`
/// extension, with every `___` namespace separator decoded to `/`.
pub open spec fn spec_title(p: Seq<char>) -> Seq<char> {
    spec_decode_sep(spec_strip_md(spec_file_name(p)))
}

/// Splits a text into its lines.
pub fn lines_of(s: &str) -> (r: Vec<String>)
    ensures
        r.deep_view() == spec_lines(s@),
{
    let n = s.unicode_len();
    let mut r: Vec<String> = Vec::new();
    let mut start: usize = 0;
    let mut i: usize = 0;
    proof {
        assert(s@.subrange(0, n as int) =~= s@);
        assert(r.deep_view() =~= Seq::<Seq<char>>::empty());
        assert(r.deep_view() + spec_lines(s@) =~= spec_lines(s@));
    }
    while i < n
        invariant
            0 <= start <= i <= n,
            n == s@.len(),
            spec_lines(s@) == r.deep_view() + spec_lines(s@.subrange(start as int, n as int)),
            forall|k: int| start <= k < i ==> s@[k] != '\n',
        decreases n - i,
    {
        if s.get_char(i) == '\n' {
            let piece = strip_cr_piece(s, start, i);
            proof {
                let rest = s@.subrange(start as int, n as int);
                lemma_find_char_prefix(rest, '\n', i - start);
                assert(rest.take(i - start) =~= s@.subrange(start as int, i as int));
                assert(rest.subrange(i - start + 1, rest.len() as int) =~= s@.subrange(
                    i as int + 1,
                    n as int,
                ));
                assert(spec_lines(rest) == seq![spec_strip_cr(rest.take(i - start))] + spec_lines(
                    rest.subrange(i - start + 1, rest.len() as int),
                ));
            }
            r.push(piece);
            proof {
                assert(r.deep_view() =~= r.deep_view().take(r.deep_view().len() - 1).push(
                    spec_strip_cr(s@.subrange(start as int, i as int)),
                ));
            }
            start = i + 1;
        }
        i = i + 1;
    }
    if start < n {
        let piece = strip_cr_piece(s, start, n);
        proof {
            let rest = s@.subrange(start as int, n as int);
            lemma_find_char(rest, '\n', 0);
            if spec_find_char(rest, '\n', 0) is Some {
                let j = spec_find_char(rest, '\n', 0)->Some_0;
                assert(s@[start + j] == '\n');
            }
            assert(spec_lines(rest) == seq![spec_strip_cr(rest)]);
            assert(rest =~= s@.subrange(start as int, i as int));
        }
        r.push(piece);
        proof {
            assert(r.deep_view() =~= r.deep_view().take(r.deep_view().len() - 1).push(
                spec_strip_cr(s@.subrange(start as int, n as int)),
            ));
        }
    } else {
        proof {
            assert(s@.subrange(start as int, n as int).len() == 0);
            assert(r.deep_view() + spec_lines(s@.subrange(start as int, n as int)) =~= r.deep_view());
        }
    }
    r
}

/// A prefix free of `c` up to an occurrence at `j` pins the find.
proof fn lemma_find_char_prefix(t: Seq<char>, c: char, j: int)
    requires
        0 <= j < t.len(),
        t[j] == c,
        forall|k: int| 0 <= k < j ==> t[k] != c,
    ensures
        spec_find_char(t, c, 0) == Some(j),
{
    lemma_find_char_prefix_from(t, c, 0, j);
}

proof fn lemma_find_char_prefix_from(t: Seq<char>, c: char, i: int, j: int)
    requires
        0 <= i <= j < t.len(),
        t[j] == c,
        forall|k: int| i <= k < j ==> t[k] != c,
    ensures
        spec_find_char(t, c, i) == Some(j),
    decreases j - i,
{
    if i < j {
        lemma_find_char_prefix_from(t, c, i + 1, j);
    }
}

/// Copies the piece `s[a .. b]` without a trailing carriage return.
fn strip_cr_piece(s: &str, a: usize, b: usize) -> (r: String)
    requires
        a <= b <= s@.len(),
    ensures
        r@ == spec_strip_cr(s@.subrange(a as int, b as int)),
{
    let piece = if b > a && s.get_char(b - 1) == '\r' {
        s.substring_char(a, b - 1)
    } else {
        s.substring_char(a, b)
    };
    proof {
        let whole = s@.subrange(a as int, b as int);
        if b > a && s@[b as int - 1] == '\r' {
            assert(whole.len() > 0 && whole.last() == '\r');
            assert(s@.subrange(a as int, b as int - 1) =~= whole.drop_last());
        }
    }
    piece.to_owned()
}

/// The comma-separated items of a text, each trimmed.
pub fn csv_items(s: &str) -> (r: Vec<String>)
    ensures
        r.deep_view() == spec_csv_items(s@),
{
    let n = s.unicode_len();
    let mut r: Vec<String> = Vec::new();
    let mut start: usize = 0;
    let mut i: usize = 0;
    proof {
        assert(s@.subrange(0, n as int) =~= s@);
        assert(r.deep_view() =~= Seq::<Seq<char>>::empty());
        assert(r.deep_view() + spec_csv_items(s@) =~= spec_csv_items(s@));
    }
    while i < n
        invariant
            0 <= start <= i <= n,
            n == s@.len(),
            spec_csv_items(s@) == r.deep_view() + spec_csv_items(
                s@.subrange(start as int, n as int),
            ),
            forall|k: int| start <= k < i ==> s@[k] != ',',
        decreases n - i,
    {
        if s.get_char(i) == ',' {
            let piece = trim_str(s.substring_char(start, i));
            proof {
                let rest = s@.subrange(start as int, n as int);
                lemma_find_char_prefix(rest, ',', i - start);
                assert(rest.take(i - start) =~= s@.subrange(start as int, i as int));
                assert(rest.subrange(i - start + 1, rest.len() as int) =~= s@.subrange(
                    i as int + 1,
                    n as int,
                ));
            }
            r.push(piece);
            proof {
                assert(r.deep_view() =~= r.deep_view().take(r.deep_view().len() - 1).push(
                    spec_trim(s@.subrange(start as int, i as int)),
                ));
            }
            start = i + 1;
        }
        i = i + 1;
    }
    let piece = trim_str(s.substring_char(start, n));
    proof {
        let rest = s@.subrange(start as int, n as int);
        lemma_find_char(rest, ',', 0);
        if spec_find_char(rest, ',', 0) is Some {
            let j = spec_find_char(rest, ',', 0)->Some_0;
            assert(s@[start + j] == ',');
        }
        assert(spec_csv_items(rest) == seq![spec_trim(rest)]);
    }
    r.push(piece);
    proof {
        assert(r.deep_view() =~= r.deep_view().take(r.deep_view().len() - 1).push(
            spec_trim(s@.subrange(start as int, n as int)),
        ));
    }
    r
}

/// Splits a line at its only `::` into a key and a value; a line with
/// no `::`, or more than one, has no key and value.
pub fn line_kv(l: &str) -> (r: Option<(String, String)>)
    ensures
        match (r, spec_line_kv(l@)) {
            (Some(p), Some(q)) => p.0@ == q.0 && p.1@ == q.1,
            (None, None) => true,
            _ => false,
        },
{
    let n = l.unicode_len();
    match find_dcolon(l, 0) {
        None => None,
        Some(i) => {
            match find_dcolon(l, i + 2) {
                Some(_) => None,
                None => {
                    let key = l.substring_char(0, i).to_owned();
                    let value = l.substring_char(i + 2, n).to_owned();
                    proof {
                        assert(l@.subrange(0, i as int) =~= l@.take(i as int));
                    }
                    Some((key, value))
                },
            }
        },
    }
}

/// Finds the first `::` at or after `i`.
fn find_dcolon(l: &str, i: usize) -> (r: Option<usize>)
    requires
        i <= l@.len(),
    ensures
        match (r, spec_find_dcolon(l@, i as int)) {
            (Some(a), Some(b)) => a as int == b && a + 1 < l@.len(),
            (None, None) => true,
            _ => false,
        },
{
    let n = l.unicode_len();
    if n < 2 {
        return None;
    }
    let mut j = i;
    while j < n - 1
        invariant
            i <= j,
            n == l@.len(),
            2 <= n,
            j <= n,
            spec_find_dcolon(l@, i as int) == spec_find_dcolon(l@, j as int),
        decreases n - j,
    {
        if l.get_char(j) == ':' && l.get_char(j + 1) == ':' {
            return Some(j);
        }
        j = j + 1;
    }
    None
}

/// Derives the title of a document path: the file name after the last
/// `/`, without the `.md` extension, with `___` decoded to `/`.
pub fn title_of_path(path: &str) -> (r: String)
    ensures
        r@ == spec_title(path@),
{
    let n = path.unicode_len();
    let mut start: usize = n;
    while start > 0 && path.get_char(start - 1) != '/'
        invariant
            0 <= start <= n,
            n == path@.len(),
            spec_rfind_char(path@, '/', n as int) == spec_rfind_char(path@, '/', start as int),
        decreases start,
    {
        start = start - 1;
    }
    let name = path.substring_char(start, n);
    proof {
        if start > 0 {
            assert(spec_rfind_char(path@, '/', start as int) == Some(start - 1 as int));
            assert(name@ =~= spec_file_name(path@));
        } else {
            assert(name@ =~= path@);
            assert(name@ =~= spec_file_name(path@));
        }
    }
    let m = name.unicode_len();
    let stem = if m >= 3 && name.get_char(m - 3) == '.' && name.get_char(m - 2) == 'm'
        && name.get_char(m - 1) == 'd' {
        name.substring_char(0, m - 3)
    } else {
        name.substring_char(0, m)
    };
    proof {
        assert(name@.subrange(0, m as int) =~= name@);
        if m >= 3 && name@[m - 3] == '.' && name@[m - 2] == 'm' && name@[m - 1] == 'd' {
            assert(name@.subrange(0, m as int - 3) =~= name@.take(m as int - 3));
        }
        assert(stem@ == spec_strip_md(spec_file_name(path@)));
    }
    decode_sep(stem)
}

/// Decodes every `___` in the text to a `/`, scanning left to right.
fn decode_sep(t: &str) -> (r: String)
    ensures
        r@ == spec_decode_sep(t@),
{
    let n = t.unicode_len();
    let mut r = String::new();
    let mut i: usize = 0;
    proof {
        assert(t@.subrange(0, n as int) =~= t@);
        assert(r@ + spec_decode_sep(t@) =~= spec_decode_sep(t@));
    }
    while i < n
        invariant
            0 <= i <= n,
            n == t@.len(),
            spec_decode_sep(t@) == r@ + spec_decode_sep(t@.subrange(i as int, n as int)),
        decreases n - i,
    {
        let rest_len = n - i;
        if rest_len >= 3 && t.get_char(i) == '_' && t.get_char(i + 1) == '_' && t.get_char(i + 2)
            == '_' {
            proof {
                let rest = t@.subrange(i as int, n as int);
                assert(rest.len() >= 3 && rest[0] == '_' && rest[1] == '_' && rest[2] == '_');
                assert(rest.subrange(3, rest.len() as int) =~= t@.subrange(i as int + 3, n as int));
                reveal_strlit("/");
                assert(seq!['/'] =~= "/"@);
            }
            r.append("/");
            i = i + 3;
        } else {
            let piece = t.substring_char(i, i + 1);
            proof {
                let rest = t@.subrange(i as int, n as int);
                assert(rest.len() > 0);
                assert(!(rest.len() >= 3 && rest[0] == '_' && rest[1] == '_' && rest[2] == '_'));
                assert(rest.subrange(1, rest.len() as int) =~= t@.subrange(i as int + 1, n as int));
                assert(piece@ =~= seq![t@[i as int]]);
            }
            r.append(piece);
            i = i + 1;
        }
    }
    proof {
        assert(spec_decode_sep(t@.subrange(n as int, n as int)) =~= Seq::<char>::empty());
        assert(r@ + Seq::<char>::empty() =~= r@);
    }
    r
}

} // verus!
