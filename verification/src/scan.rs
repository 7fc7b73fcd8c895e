//! The lexical layer of placeholder extraction: character classes, token
//! boundaries, wrapper extension and sigil stripping, each with a spec
//! definition, an executable counterpart, and the lemmas that tie the two
//! together.
//!
//! The scan works over the template text as if every wrapper character
//! (angle bracket or double quote) had been normalized to whitespace: a
//! token is a maximal run of characters that are neither whitespace nor
//! wrappers, so a token read from the normalized text is, character for
//! character, a substring of the original text.

use vstd::prelude::*;

verus! {

/// The sigil that introduces a placeholder.
pub open spec fn is_sigil_char(c: char) -> bool {
    c == '$'
}

/// Whitespace that separates words of the template text.
pub open spec fn is_space_char(c: char) -> bool {
    c == ' ' || c == '\t' || c == '\n' || c == '\r'
}

/// Wrapper characters: delimiters that may surround a placeholder and that
/// the scan treats as whitespace when splitting the text into tokens.
pub open spec fn is_wrapper_char(c: char) -> bool {
    c == '<' || c == '>' || c == '"'
}

/// A separator ends a token: whitespace or a wrapper character.
pub open spec fn is_sep_char(c: char) -> bool {
    is_space_char(c) || is_wrapper_char(c)
}

/// A character that may open an identifier: an ASCII letter or underscore.
pub open spec fn is_ident_start_char(c: char) -> bool {
    ('a' as u32 <= c as u32 && c as u32 <= 'z' as u32) || ('A' as u32 <= c as u32 && c as u32
        <= 'Z' as u32) || c == '_'
}

/// A character that may continue an identifier: a start character or an
/// ASCII digit.
pub open spec fn is_ident_char(c: char) -> bool {
    is_ident_start_char(c) || ('0' as u32 <= c as u32 && c as u32 <= '9' as u32)
}

/// A legal field identifier: nonempty, opening with a letter or underscore,
/// continuing with letters, digits or underscores.
pub open spec fn is_valid_ident(s: Seq<char>) -> bool {
    s.len() > 0 && is_ident_start_char(s[0]) && (forall|d: int|
        1 <= d < s.len() ==> is_ident_char(#[trigger] s[d]))
}

/// The position just past the token that begins at `i`: the first position
/// at or after `i` that holds a separator, or the end of the text.
pub open spec fn token_end(t: Seq<char>, i: int) -> int
    decreases t.len() - i,
        when 0 <= i <= t.len()
{
    if i >= t.len() {
        i
    } else if is_sep_char(t[i]) {
        i
    } else {
        token_end(t, i + 1)
    }
}

/// What `token_end` finds: the run `[i, token_end)` is separator-free and
/// ends at a separator or at the end of the text.
pub proof fn lemma_token_end_bounds(t: Seq<char>, i: int)
    requires
        0 <= i <= t.len(),
    ensures
        i <= token_end(t, i) <= t.len(),
        forall|k: int| i <= k < token_end(t, i) ==> !is_sep_char(#[trigger] t[k]),
        token_end(t, i) == t.len() || is_sep_char(t[token_end(t, i)]),
    decreases t.len() - i,
{
    if i < t.len() && !is_sep_char(t[i]) {
        lemma_token_end_bounds(t, i + 1);
    }
}

/// A position with the properties of `token_end` is `token_end`.
pub proof fn lemma_token_end_is(t: Seq<char>, i: int, j: int)
    requires
        0 <= i <= j <= t.len(),
        forall|k: int| i <= k < j ==> !is_sep_char(#[trigger] t[k]),
        j == t.len() || is_sep_char(t[j]),
    ensures
        token_end(t, i) == j,
{
    lemma_token_end_bounds(t, i);
}

/// The start of the wrapper run that ends just before `i`: the least
/// position from which every character up to `i` is a wrapper.
pub open spec fn wrap_start(t: Seq<char>, i: int) -> int
    decreases i,
        when 0 <= i <= t.len()
{
    if i == 0 {
        0
    } else if is_wrapper_char(t[i - 1]) {
        wrap_start(t, i - 1)
    } else {
        i
    }
}

/// The end of the wrapper run that begins at `j`: the first position at or
/// after `j` whose character is not a wrapper, or the end of the text.
pub open spec fn wrap_end(t: Seq<char>, j: int) -> int
    decreases t.len() - j,
        when 0 <= j <= t.len()
{
    if j >= t.len() {
        j
    } else if is_wrapper_char(t[j]) {
        wrap_end(t, j + 1)
    } else {
        j
    }
}

/// `wrap_start` stays within the text, at or before `i`.
pub proof fn lemma_wrap_start_bounds(t: Seq<char>, i: int)
    requires
        0 <= i <= t.len(),
    ensures
        0 <= wrap_start(t, i) <= i,
    decreases i,
{
    if i > 0 && is_wrapper_char(t[i - 1]) {
        lemma_wrap_start_bounds(t, i - 1);
    }
}

/// `wrap_end` stays within the text, at or after `j`.
pub proof fn lemma_wrap_end_bounds(t: Seq<char>, j: int)
    requires
        0 <= j <= t.len(),
    ensures
        j <= wrap_end(t, j) <= t.len(),
    decreases t.len() - j,
{
    if j < t.len() && is_wrapper_char(t[j]) {
        lemma_wrap_end_bounds(t, j + 1);
    }
}

/// A position with the properties of `wrap_start` is `wrap_start`.
pub proof fn lemma_wrap_start_is(t: Seq<char>, i: int, a: int)
    requires
        0 <= a <= i <= t.len(),
        forall|k: int| a <= k < i ==> is_wrapper_char(#[trigger] t[k]),
        a == 0 || !is_wrapper_char(t[a - 1]),
    ensures
        wrap_start(t, i) == a,
    decreases i - a,
{
    if i > a {
        lemma_wrap_start_is(t, i - 1, a);
    }
}

/// A position with the properties of `wrap_end` is `wrap_end`.
pub proof fn lemma_wrap_end_is(t: Seq<char>, j: int, b: int)
    requires
        0 <= j <= b <= t.len(),
        forall|k: int| j <= k < b ==> is_wrapper_char(#[trigger] t[k]),
        b == t.len() || !is_wrapper_char(t[b]),
    ensures
        wrap_end(t, j) == b,
    decreases b - j,
{
    if b > j {
        lemma_wrap_end_is(t, j + 1, b);
    }
}

/// The word with every leading sigil removed: the field name a placeholder
/// word denotes.
pub open spec fn strip_sigils(w: Seq<char>) -> Seq<char>
    decreases w.len(),
{
    if w.len() > 0 && is_sigil_char(w[0]) {
        strip_sigils(w.skip(1))
    } else {
        w
    }
}

/// Stripping the sigils of a word whose sigil run ends at `e` keeps exactly
/// the part of the word from `e` on.
pub proof fn lemma_strip_sigils_skips(w: Seq<char>, e: int)
    requires
        0 <= e <= w.len(),
        forall|d: int| 0 <= d < e ==> is_sigil_char(#[trigger] w[d]),
        e == w.len() || !is_sigil_char(w[e]),
    ensures
        strip_sigils(w) == w.skip(e),
    decreases e,
{
    if e == 0 {
        assert(w.skip(0) =~= w);
    } else {
        lemma_strip_sigils_skips(w.skip(1), e - 1);
        assert(w.skip(1).skip(e - 1) =~= w.skip(e));
    }
}

/// Exec mirror of `is_sep_char`.
pub fn sep_char(c: char) -> (r: bool)
    ensures
        r == is_sep_char(c),
{
    c == ' ' || c == '\t' || c == '\n' || c == '\r' || c == '<' || c == '>' || c == '"'
}

/// Exec mirror of `is_wrapper_char`.
pub fn wrapper_char(c: char) -> (r: bool)
    ensures
        r == is_wrapper_char(c),
{
    c == '<' || c == '>' || c == '"'
}

/// Exec mirror of `is_ident_start_char`.
pub fn ident_start_char(c: char) -> (r: bool)
    ensures
        r == is_ident_start_char(c),
{
    let u = c as u32;
    ('a' as u32 <= u && u <= 'z' as u32) || ('A' as u32 <= u && u <= 'Z' as u32) || c == '_'
}

/// Exec mirror of `is_ident_char`.
pub fn ident_char(c: char) -> (r: bool)
    ensures
        r == is_ident_char(c),
{
    let u = c as u32;
    ident_start_char(c) || ('0' as u32 <= u && u <= '9' as u32)
}

/// The token beginning at `j` continues through position `j`.
fn token_continues(text: &str, j: usize) -> (r: bool)
    requires
        j <= text@.len(),
    ensures
        r == (j < text@.len() && !is_sep_char(text@[j as int])),
{
    if j < text.unicode_len() {
        !sep_char(text.get_char(j))
    } else {
        false
    }
}

/// Finds the end of the token that begins at `i`.
pub fn scan_token_end(text: &str, i: usize) -> (j: usize)
    requires
        i <= text@.len(),
    ensures
        i <= j <= text@.len(),
        j == token_end(text@, i as int),
{
    let n = text.unicode_len();
    let mut j = i;
    while token_continues(text, j)
        invariant
            i <= j <= n,
            n == text@.len(),
            forall|k: int| i <= k < j ==> !is_sep_char(#[trigger] text@[k]),
        decreases n - j,
    {
        j = j + 1;
    }
    proof {
        lemma_token_end_is(text@, i as int, j as int);
    }
    j
}

/// A wrapper character stands just before position `a`.
fn wrapper_before(text: &str, a: usize) -> (r: bool)
    requires
        a <= text@.len(),
    ensures
        r == (a > 0 && is_wrapper_char(text@[a as int - 1])),
{
    if a > 0 {
        wrapper_char(text.get_char(a - 1))
    } else {
        false
    }
}

/// A wrapper character stands at position `b`.
fn wrapper_at(text: &str, b: usize) -> (r: bool)
    requires
        b <= text@.len(),
    ensures
        r == (b < text@.len() && is_wrapper_char(text@[b as int])),
{
    if b < text.unicode_len() {
        wrapper_char(text.get_char(b))
    } else {
        false
    }
}

/// Finds the start of the wrapper run ending just before `i`.
pub fn scan_wrap_start(text: &str, i: usize) -> (a: usize)
    requires
        i <= text@.len(),
    ensures
        a <= i,
        a == wrap_start(text@, i as int),
{
    let mut a = i;
    while wrapper_before(text, a)
        invariant
            a <= i <= text@.len(),
            forall|k: int| a <= k < i ==> is_wrapper_char(#[trigger] text@[k]),
        decreases a,
    {
        a = a - 1;
    }
    proof {
        lemma_wrap_start_is(text@, i as int, a as int);
    }
    a
}

/// Finds the end of the wrapper run beginning at `j`.
pub fn scan_wrap_end(text: &str, j: usize) -> (b: usize)
    requires
        j <= text@.len(),
    ensures
        j <= b <= text@.len(),
        b == wrap_end(text@, j as int),
{
    let n = text.unicode_len();
    let mut b = j;
    while wrapper_at(text, b)
        invariant
            j <= b <= n,
            n == text@.len(),
            forall|k: int| j <= k < b ==> is_wrapper_char(#[trigger] text@[k]),
        decreases n - b,
    {
        b = b + 1;
    }
    proof {
        lemma_wrap_end_is(text@, j as int, b as int);
    }
    b
}

/// Decides whether `s` is a legal field identifier.
pub fn valid_ident(s: &str) -> (r: bool)
    ensures
        r == is_valid_ident(s@),
{
    let n = s.unicode_len();
    if n == 0 {
        return false;
    }
    if !ident_start_char(s.get_char(0)) {
        return false;
    }
    let mut d: usize = 1;
    while d < n
        invariant
            1 <= d <= n,
            n == s@.len(),
            is_ident_start_char(s@[0]),
            forall|k: int| 1 <= k < d ==> is_ident_char(#[trigger] s@[k]),
        decreases n - d,
    {
        if !ident_char(s.get_char(d)) {
            return false;
        }
        d = d + 1;
    }
    true
}

} // verus!
