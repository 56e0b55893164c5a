//! Character classes used by the annotation grammars.
//!
//! The key and identifier classes are fixed ASCII sets, as the
//! grammars prescribe. The word and whitespace classes are the
//! Unicode-aware classes of the annotation grammar: a word character
//! is an alphanumeric character or an underscore, and whitespace is
//! the Unicode `White_Space` set, the same set text trimming uses.

use vstd::prelude::*;

verus! {

/// A lowercase ASCII letter, `a` through `z`.
pub open spec fn spec_is_lower(c: char) -> bool {
    97 <= (c as u32) && (c as u32) <= 122
}

/// A character of an inline identifier token: lowercase hex or a hyphen.
pub open spec fn spec_is_id_char(c: char) -> bool {
    ||| 97 <= (c as u32) && (c as u32) <= 102  // 'a' ..= 'f'
    ||| 48 <= (c as u32) && (c as u32) <= 57  // '0' ..= '9'
    ||| c == '-'
}

/// Whether a character is Unicode-alphanumeric: a letter or a
/// numeric character. The set takes pages to list, so it is named
/// here and decided by the standard library.
pub uninterp spec fn spec_is_alphanumeric(c: char) -> bool;

/// Relies on `char::is_alphanumeric`: whether a character is a
/// letter or a numeric character depends on the character alone; the
/// result is named by `spec_is_alphanumeric`.
#[verifier::external_body]
fn is_alphanumeric(c: char) -> (r: bool)
    ensures
        r == spec_is_alphanumeric(c),
{
    c.is_alphanumeric()
}

/// A word character: an alphanumeric character or an underscore.
pub open spec fn spec_is_word(c: char) -> bool {
    spec_is_alphanumeric(c) || c == '_'
}

/// A whitespace character: the Unicode `White_Space` set, which text
/// trimming uses as well. The set is, by code point: tab through
/// carriage return, space, next line, no-break space, ogham space
/// mark, the en-quad through hair-space range, line and paragraph
/// separators, narrow no-break space, medium mathematical space and
/// ideographic space.
pub open spec fn spec_is_space(c: char) -> bool {
    let u = c as u32;
    ||| (9 <= u && u <= 13)
    ||| u == 32
    ||| u == 0x85
    ||| u == 0xA0
    ||| u == 0x1680
    ||| (0x2000 <= u && u <= 0x200A)
    ||| u == 0x2028
    ||| u == 0x2029
    ||| u == 0x202F
    ||| u == 0x205F
    ||| u == 0x3000
}

/// A word character or a whitespace character, the class allowed
/// inside a bracketed link or tag.
pub open spec fn spec_is_word_or_space(c: char) -> bool {
    spec_is_word(c) || spec_is_space(c)
}

/// The character classes the scanners take runs of.
#[derive(Clone, Copy, PartialEq, Eq, Structural)]
pub enum CharClass {
    /// Lowercase ASCII letters.
    Lower,
    /// Identifier token characters.
    IdChar,
    /// Word characters.
    Word,
    /// Word or whitespace characters.
    WordOrSpace,
}

/// Membership of a character in a class.
pub open spec fn spec_in_class(cls: CharClass, c: char) -> bool {
    match cls {
        CharClass::Lower => spec_is_lower(c),
        CharClass::IdChar => spec_is_id_char(c),
        CharClass::Word => spec_is_word(c),
        CharClass::WordOrSpace => spec_is_word_or_space(c),
    }
}

/// Decides membership of a character in a class.
pub fn in_class(cls: CharClass, c: char) -> (r: bool)
    ensures
        r == spec_in_class(cls, c),
{
    let u = c as u32;
    match cls {
        CharClass::Lower => 97 <= u && u <= 122,
        CharClass::IdChar => (97 <= u && u <= 102) || (48 <= u && u <= 57) || c == '-',
        CharClass::Word => is_alphanumeric(c) || c == '_',
        CharClass::WordOrSpace => is_alphanumeric(c) || c == '_' || is_space(c),
    }
}

/// Decides whether a character is whitespace.
pub fn is_space(c: char) -> (r: bool)
    ensures
        r == spec_is_space(c),
{
    let u = c as u32;
    (9 <= u && u <= 13) || u == 32 || u == 0x85 || u == 0xA0 || u == 0x1680 || (0x2000 <= u && u
        <= 0x200A) || u == 0x2028 || u == 0x2029 || u == 0x202F || u == 0x205F || u == 0x3000
}

/// The end of the run of class `cls` characters that starts at `i`:
/// the first position at or after `i` holding no such character.
pub open spec fn spec_run_end(cls: CharClass, t: Seq<char>, i: int) -> int
    decreases t.len() - i,
{
    if i < 0 || i >= t.len() {
        i
    } else if spec_in_class(cls, t[i]) {
        spec_run_end(cls, t, i + 1)
    } else {
        i
    }
}

/// The run end never precedes its start and never passes the end of the text.
pub proof fn lemma_run_end_bounds(cls: CharClass, t: Seq<char>, i: int)
    requires
        0 <= i <= t.len(),
    ensures
        i <= spec_run_end(cls, t, i) <= t.len(),
    decreases t.len() - i,
{
    if i < t.len() && spec_in_class(cls, t[i]) {
        lemma_run_end_bounds(cls, t, i + 1);
    }
}

/// Computes the end of the run of class `cls` characters starting at `i`.
pub fn run_end(cls: CharClass, t: &str, i: usize) -> (r: usize)
    requires
        i <= t@.len(),
    ensures
        r == spec_run_end(cls, t@, i as int),
        i <= r <= t@.len(),
{
    let n = t.unicode_len();
    let mut j = i;
    while j < n && in_class(cls, t.get_char(j))
        invariant
            i <= j <= n,
            n == t@.len(),
            spec_run_end(cls, t@, i as int) == spec_run_end(cls, t@, j as int),
        decreases n - j,
    {
        j = j + 1;
    }
    j
}

} // verus!
