//! Reading a stylesheet: its comments, strings and words.

use vstd::prelude::*;

use crate::text::{
    alnum, find, find_from, is_alnum, lemma_find, lemma_skip, matches_in_ci,
    skip, skip_over, stands_in_ci, Class,
};

verus! {

/// Whether a character can be part of a name.
pub open spec fn in_name(c: char) -> bool {
    is_alnum(c) || c == '-' || c == '_' || c == '\\' || c as u32 >= 128
}

pub fn name_char(c: char) -> (r: bool)
    ensures
        r == in_name(c),
{
    alnum(c) || c == '-' || c == '_' || c == '\\' || c as u32 >= 128
}

/// Whether a word stands at `i`: no name goes on behind it.
pub open spec fn word_stands(s: Seq<char>, word: Seq<char>, i: int, lim: int) -> bool {
    &&& stands_in_ci(s, word, i, lim)
    &&& i + word.len() >= lim || !in_name(s[i + word.len()])
}

pub fn word_at(s: &[char], word: &[char], i: usize, lim: usize) -> (r: bool)
    requires
        i <= lim <= s.len(),
    ensures
        r == word_stands(s@, word@, i as int, lim as int),
{
    matches_in_ci(s, word, i, lim) && (word.len() >= lim - i || !name_char(s[i + word.len()]))
}

// ----- Comments and strings -----

/// Whether a comment opens at `i`.
pub open spec fn opens_comment(s: Seq<char>, i: int, lim: int) -> bool {
    i + 1 < lim && s[i] == '/' && s[i + 1] == '*'
}

/// Behind the comment that opens at `i`, or the end.
pub open spec fn comment_end(s: Seq<char>, i: int, lim: int) -> int {
    match find(s, seq!['*', '/'], i + 2, lim) {
        Some(e) => e + 2,
        None => lim,
    }
}

/// Whether a line ends with the character.
pub open spec fn ends_line(c: char) -> bool {
    c == '\n' || c == '\r' || c == '\u{c}'
}

/// Where the string with that quote ends whose contents are read from `k` on: behind the
/// next such quote that no backslash escapes, or with its line.
pub open spec fn string_end(s: Seq<char>, k: int, lim: int, quote: char) -> int
    decreases lim + 1 - k,
{
    if k >= lim {
        lim
    } else if s[k] == quote {
        k + 1
    } else if ends_line(s[k]) {
        k
    } else if s[k] == '\\' {
        string_end(s, k + 2, lim, quote)
    } else {
        string_end(s, k + 1, lim, quote)
    }
}

/// Where the bare URL ends that is read from `k` on: behind the next closing bracket
/// that no backslash escapes.
pub open spec fn bare_url_end(s: Seq<char>, k: int, lim: int) -> int
    decreases lim + 1 - k,
{
    if k >= lim {
        lim
    } else if s[k] == ')' {
        k + 1
    } else if s[k] == '\\' {
        bare_url_end(s, k + 2, lim)
    } else {
        bare_url_end(s, k + 1, lim)
    }
}

/// Whether a `url(` with a bare URL stands at `i`.
pub open spec fn opens_bare_url(s: Seq<char>, i: int, lim: int) -> bool {
    let v = skip(s, i + 4, lim, Class::Space);
    &&& stands_in_ci(s, seq!['u', 'r', 'l', '('], i, lim)
    &&& !(v < lim && (s[v] == '"' || s[v] == '\''))
}

/// Where the piece of a stylesheet ends that begins at `i`: a comment, a string, a bare
/// URL or an escaped character, in which nothing has a meaning of its own, or any other
/// character.
pub open spec fn piece_end(s: Seq<char>, i: int, lim: int) -> int {
    if opens_comment(s, i, lim) {
        comment_end(s, i, lim)
    } else if s[i] == '"' || s[i] == '\'' {
        string_end(s, i + 1, lim, s[i])
    } else if opens_bare_url(s, i, lim) {
        bare_url_end(s, i + 4, lim)
    } else if s[i] == '\\' && i + 1 < lim {
        i + 2
    } else {
        i + 1
    }
}

proof fn lemma_string_end(s: Seq<char>, k: int, lim: int, quote: char)
    ensures
        k <= lim ==> k <= string_end(s, k, lim, quote) <= lim,
        k > lim ==> string_end(s, k, lim, quote) == lim,
    decreases lim + 1 - k,
{
    if k < lim {
        lemma_string_end(s, k + 1, lim, quote);
        lemma_string_end(s, k + 2, lim, quote);
    }
}

proof fn lemma_bare_url_end(s: Seq<char>, k: int, lim: int)
    ensures
        k <= lim ==> k <= bare_url_end(s, k, lim) <= lim,
        k > lim ==> bare_url_end(s, k, lim) == lim,
    decreases lim + 1 - k,
{
    if k < lim {
        lemma_bare_url_end(s, k + 1, lim);
        lemma_bare_url_end(s, k + 2, lim);
    }
}

pub proof fn lemma_piece(s: Seq<char>, i: int, lim: int)
    requires
        0 <= i < lim <= s.len(),
    ensures
        i < piece_end(s, i, lim) <= lim,
{
    lemma_find(s, seq!['*', '/'], i + 2, lim);
    lemma_string_end(s, i + 1, lim, s[i]);
    lemma_bare_url_end(s, i + 4, lim);
}

fn read_string_end(s: &[char], from: usize, lim: usize, quote: char) -> (r: usize)
    requires
        from <= lim <= s.len(),
    ensures
        r == string_end(s@, from as int, lim as int, quote),
{
    let mut k: usize = from;
    while k < lim
        invariant
            k <= lim,
            lim <= s.len(),
            string_end(s@, k as int, lim as int, quote) == string_end(
                s@,
                from as int,
                lim as int,
                quote,
            ),
        decreases lim - k,
    {
        let c = s[k];
        if c == quote {
            return k + 1;
        }
        if c == '\n' || c == '\r' || c == '\u{c}' {
            return k;
        }
        if c == '\\' {
            if lim - k <= 2 {
                proof {
                    lemma_string_end(s@, k + 2, lim as int, quote);
                }
                return lim;
            }
            k = k + 2;
        } else {
            k = k + 1;
        }
    }
    lim
}

fn read_bare_url_end(s: &[char], from: usize, lim: usize) -> (r: usize)
    requires
        from <= lim <= s.len(),
    ensures
        r == bare_url_end(s@, from as int, lim as int),
{
    let mut k: usize = from;
    while k < lim
        invariant
            k <= lim,
            lim <= s.len(),
            bare_url_end(s@, k as int, lim as int) == bare_url_end(s@, from as int, lim as int),
        decreases lim - k,
    {
        let c = s[k];
        if c == ')' {
            return k + 1;
        }
        if c == '\\' {
            if lim - k <= 2 {
                proof {
                    lemma_bare_url_end(s@, k + 2, lim as int);
                }
                return lim;
            }
            k = k + 2;
        } else {
            k = k + 1;
        }
    }
    lim
}

/// Whether a `url(` with a bare URL stands at `i`.
pub fn bare_url_at(s: &[char], i: usize, lim: usize) -> (r: bool)
    requires
        i <= lim <= s.len(),
    ensures
        r == opens_bare_url(s@, i as int, lim as int),
        r ==> i + 4 <= lim,
{
    let url: Vec<char> = vec!['u', 'r', 'l', '('];
    assert(url@ =~= seq!['u', 'r', 'l', '(']);
    if !matches_in_ci(s, &url, i, lim) {
        return false;
    }
    let v = skip_over(s, i + 4, lim, Class::Space);
    !(v < lim && (s[v] == '"' || s[v] == '\''))
}

/// Reads where the piece of a stylesheet ends that begins at `i`.
pub fn read_piece(s: &[char], i: usize, lim: usize) -> (r: usize)
    requires
        i < lim <= s.len(),
    ensures
        r == piece_end(s@, i as int, lim as int),
        i < r <= lim,
{
    proof {
        lemma_piece(s@, i as int, lim as int);
    }
    let c = s[i];
    if c == '/' && lim - i > 1 && s[i + 1] == '*' {
        let close: Vec<char> = vec!['*', '/'];
        assert(close@ =~= seq!['*', '/']);
        return match find_from(s, &close, i + 2, lim) {
            Some(e) => e + 2,
            None => lim,
        };
    }
    if c == '"' || c == '\'' {
        return read_string_end(s, i + 1, lim, c);
    }
    if bare_url_at(s, i, lim) {
        return read_bare_url_end(s, i + 4, lim);
    }
    if c == '\\' && lim - i > 1 {
        i + 2
    } else {
        i + 1
    }
}

/// Behind the white space and the comments from `i` on.
pub open spec fn gap_end(s: Seq<char>, i: int, lim: int) -> int
    decreases lim - i,
    when 0 <= i && lim <= s.len()
    via gap_end_ends
{
    let p = skip(s, i, lim, Class::Blank);
    if opens_comment(s, p, lim) {
        gap_end(s, comment_end(s, p, lim), lim)
    } else {
        p
    }
}

#[via_fn]
proof fn gap_end_ends(s: Seq<char>, i: int, lim: int) {
    let p = skip(s, i, lim, Class::Blank);
    lemma_skip(s, i, lim, Class::Blank);
    lemma_find(s, seq!['*', '/'], p + 2, lim);
}

pub proof fn lemma_gap(s: Seq<char>, i: int, lim: int)
    requires
        0 <= i <= lim <= s.len(),
    ensures
        i <= gap_end(s, i, lim) <= lim,
    decreases lim - i,
{
    let p = skip(s, i, lim, Class::Blank);
    lemma_skip(s, i, lim, Class::Blank);
    lemma_find(s, seq!['*', '/'], p + 2, lim);
    if opens_comment(s, p, lim) {
        lemma_gap(s, comment_end(s, p, lim), lim);
    }
}

/// Reads over the white space and the comments from `from` on.
pub fn read_gap(s: &[char], from: usize, lim: usize) -> (r: usize)
    requires
        from <= lim <= s.len(),
    ensures
        r == gap_end(s@, from as int, lim as int),
        from <= r <= lim,
{
    let mut i: usize = from;
    loop
        invariant
            from <= i <= lim <= s.len(),
            gap_end(s@, i as int, lim as int) == gap_end(s@, from as int, lim as int),
        decreases lim - i,
    {
        let p = skip_over(s, i, lim, Class::Blank);
        if lim - p > 1 && s[p] == '/' && s[p + 1] == '*' {
            i = read_piece(s, p, lim);
        } else {
            return p;
        }
    }
}

} // verus!
