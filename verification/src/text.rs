//! Text as a sequence of characters: the character classes, searches and
//! splittings that the rest of the library is stated with.

use vstd::prelude::*;
use vstd::slice::slice_subrange;

verus! {

/// `String::push` of the standard library: appends the character to the end of
/// the string and changes nothing else.
pub assume_specification[ String::push ](s: &mut String, c: char)
    ensures
        final(s)@ == old(s)@.push(c),
;

// ----- Characters -----

/// The ASCII lower-case form of a character; every other character is itself.
pub open spec fn lower(c: char) -> char {
    if 'A' <= c && c <= 'Z' {
        ((c as u8 + 32) as u8) as char
    } else {
        c
    }
}

pub fn to_lower(c: char) -> (r: char)
    ensures
        r == lower(c),
{
    if 'A' <= c && c <= 'Z' {
        ((c as u8) + 32) as char
    } else {
        c
    }
}

/// A text with every ASCII capital lowered.
pub open spec fn lower_all(s: Seq<char>) -> Seq<char> {
    s.map_values(|c: char| lower(c))
}

/// ASCII white space: space, tab, line feed, form feed, carriage return.
pub open spec fn is_space(c: char) -> bool {
    c == ' ' || c == '\t' || c == '\n' || c == '\u{c}' || c == '\r'
}

/// The Unicode property `White_Space`.
pub open spec fn is_blank(c: char) -> bool {
    ||| ('\u{9}' <= c && c <= '\u{d}')
    ||| c == ' '
    ||| c == '\u{85}'
    ||| c == '\u{a0}'
    ||| c == '\u{1680}'
    ||| ('\u{2000}' <= c && c <= '\u{200a}')
    ||| c == '\u{2028}'
    ||| c == '\u{2029}'
    ||| c == '\u{202f}'
    ||| c == '\u{205f}'
    ||| c == '\u{3000}'
}

pub open spec fn is_digit(c: char) -> bool {
    '0' <= c && c <= '9'
}

pub open spec fn is_alpha(c: char) -> bool {
    ('a' <= c && c <= 'z') || ('A' <= c && c <= 'Z')
}

pub open spec fn is_alnum(c: char) -> bool {
    is_digit(c) || is_alpha(c)
}

pub open spec fn is_hex(c: char) -> bool {
    is_digit(c) || ('a' <= c && c <= 'f') || ('A' <= c && c <= 'F')
}

/// The Unicode category `Cc`.
pub open spec fn is_control(c: char) -> bool {
    c <= '\u{1f}' || ('\u{7f}' <= c && c <= '\u{9f}')
}

/// A set of characters that a scan runs over.
#[derive(Clone, Copy, PartialEq, Eq, Structural)]
pub enum Class {
    /// ASCII white space.
    Space,
    /// Unicode white space.
    Blank,
    /// Anything but Unicode white space.
    NotBlank,
    /// Anything but ASCII white space.
    NotSpace,
    /// The characters of a tag's name: ASCII letters, digits, `-` and `:`.
    TagName,
    /// The characters of an attribute's name: all but `=`, `>`, `/` and white space.
    AttrName,
    /// The characters of an unquoted attribute value: all but `>` and white space.
    Unquoted,
    /// All but one character.
    Not(char),
    /// All but one character and ASCII white space.
    NotNorSpace(char),
    /// ASCII letters, digits, `+`, `-` and `.`.
    Scheme,
    /// ASCII digits.
    Digit,
    /// ASCII hexadecimal digits.
    Hex,
    /// One character.
    Only(char),
    /// `.` and `-`.
    DotDash,
    /// Unicode white space and `,`.
    Separator,
    /// Unicode white space, `,` and `/`.
    ChannelSeparator,
    /// All but Unicode white space, `,` and `/`.
    Channel,
    /// All but `/`, `?` and `#`.
    Authority,
    /// ASCII letters, digits, `+` and `-`.
    PlainScheme,
    /// ASCII letters, digits, `.` and `-`.
    Host,
}

impl Class {
    pub open spec fn has(self, c: char) -> bool {
        match self {
            Class::Space => is_space(c),
            Class::Blank => is_blank(c),
            Class::NotBlank => !is_blank(c),
            Class::NotSpace => !is_space(c),
            Class::TagName => is_alnum(c) || c == '-' || c == ':',
            Class::AttrName => c != '=' && c != '>' && c != '/' && !is_space(c),
            Class::Unquoted => c != '>' && !is_space(c),
            Class::Not(x) => c != x,
            Class::NotNorSpace(x) => c != x && !is_space(c),
            Class::Scheme => is_alnum(c) || c == '+' || c == '-' || c == '.',
            Class::Digit => is_digit(c),
            Class::Hex => is_hex(c),
            Class::Only(x) => c == x,
            Class::DotDash => c == '.' || c == '-',
            Class::Separator => is_blank(c) || c == ',',
            Class::ChannelSeparator => is_blank(c) || c == ',' || c == '/',
            Class::Channel => !(is_blank(c) || c == ',' || c == '/'),
            Class::Authority => c != '/' && c != '?' && c != '#',
            Class::PlainScheme => is_alnum(c) || c == '+' || c == '-',
            Class::Host => is_alnum(c) || c == '.' || c == '-',
        }
    }

    /// Whether the character belongs to the class.
    pub fn contains(self, c: char) -> (r: bool)
        ensures
            r == self.has(c),
    {
        match self {
            Class::Space => space(c),
            Class::Blank => blank(c),
            Class::NotBlank => !blank(c),
            Class::NotSpace => !space(c),
            Class::TagName => alnum(c) || c == '-' || c == ':',
            Class::AttrName => c != '=' && c != '>' && c != '/' && !space(c),
            Class::Unquoted => c != '>' && !space(c),
            Class::Not(x) => c != x,
            Class::NotNorSpace(x) => c != x && !space(c),
            Class::Scheme => alnum(c) || c == '+' || c == '-' || c == '.',
            Class::Digit => digit(c),
            Class::Hex => digit(c) || ('a' <= c && c <= 'f') || ('A' <= c && c <= 'F'),
            Class::Only(x) => c == x,
            Class::DotDash => c == '.' || c == '-',
            Class::Separator => blank(c) || c == ',',
            Class::ChannelSeparator => blank(c) || c == ',' || c == '/',
            Class::Channel => !(blank(c) || c == ',' || c == '/'),
            Class::Authority => c != '/' && c != '?' && c != '#',
            Class::PlainScheme => alnum(c) || c == '+' || c == '-',
            Class::Host => alnum(c) || c == '.' || c == '-',
        }
    }
}

pub fn space(c: char) -> (r: bool)
    ensures
        r == is_space(c),
{
    c == ' ' || c == '\t' || c == '\n' || c == '\u{c}' || c == '\r'
}

pub fn blank(c: char) -> (r: bool)
    ensures
        r == is_blank(c),
{
    ('\u{9}' <= c && c <= '\u{d}') || c == ' ' || c == '\u{85}' || c == '\u{a0}' || c == '\u{1680}'
        || ('\u{2000}' <= c && c <= '\u{200a}') || c == '\u{2028}' || c == '\u{2029}'
        || c == '\u{202f}' || c == '\u{205f}' || c == '\u{3000}'
}

pub fn digit(c: char) -> (r: bool)
    ensures
        r == is_digit(c),
{
    '0' <= c && c <= '9'
}

pub fn alnum(c: char) -> (r: bool)
    ensures
        r == is_alnum(c),
{
    digit(c) || ('a' <= c && c <= 'z') || ('A' <= c && c <= 'Z')
}

pub fn control(c: char) -> (r: bool)
    ensures
        r == is_control(c),
{
    c <= '\u{1f}' || ('\u{7f}' <= c && c <= '\u{9f}')
}

// ----- Between strings and characters -----

/// The characters of a string, in order.
pub fn chars_of(s: &str) -> (out: Vec<char>)
    ensures
        out@ == s@,
{
    let mut out: Vec<char> = Vec::new();
    for c in it: s.chars()
        invariant
            it.seq() == s@,
            out@ == it.seq().take(it.index() as int),
    {
        out.push(c);
        proof {
            assert(it.seq().take(it.index() as int + 1) == it.seq().take(it.index() as int).push(
                c,
            ));
        }
    }
    proof {
        assert(s@.take(s@.len() as int) == s@);
    }
    out
}

/// Appends the characters to the string.
pub fn push_chars(out: &mut String, s: &[char])
    ensures
        final(out)@ == old(out)@ + s@,
{
    let ghost start = out@;
    let mut i: usize = 0;
    while i < s.len()
        invariant
            i <= s.len(),
            out@ == start + s@.take(i as int),
        decreases s.len() - i,
    {
        out.push(s[i]);
        proof {
            assert(s@.take(i as int + 1) == s@.take(i as int).push(s@[i as int]));
            assert((start + s@.take(i as int)).push(s@[i as int]) == start + s@.take(i as int + 1));
        }
        i = i + 1;
    }
    proof {
        assert(s@.take(s@.len() as int) == s@);
    }
}

/// Appends a part of the characters to the string.
pub fn push_range(out: &mut String, s: &[char], from: usize, to: usize)
    requires
        from <= to <= s.len(),
    ensures
        final(out)@ == old(out)@ + s@.subrange(from as int, to as int),
{
    push_chars(out, slice_subrange(s, from, to));
}

/// The string of the given characters.
pub fn string_of(s: &[char]) -> (out: String)
    ensures
        out@ == s@,
{
    let mut out = String::new();
    push_chars(&mut out, s);
    proof {
        assert(Seq::<char>::empty() + s@ == s@);
    }
    out
}

/// A copy of the string.
pub fn copy_of(s: &str) -> (out: String)
    ensures
        out@ == s@,
{
    String::from_str(s)
}

/// Whether two character sequences are the same.
pub fn same_chars(a: &[char], b: &[char]) -> (r: bool)
    ensures
        r == (a@ == b@),
{
    if a.len() != b.len() {
        return false;
    }
    let mut i: usize = 0;
    while i < a.len()
        invariant
            i <= a.len(),
            a.len() == b.len(),
            forall|k: int| 0 <= k < i ==> a@[k] == b@[k],
        decreases a.len() - i,
    {
        if a[i] != b[i] {
            return false;
        }
        i = i + 1;
    }
    proof {
        assert(a@ =~= b@);
    }
    true
}

/// Whether two strings are the same.
pub fn same(a: &str, b: &str) -> (r: bool)
    ensures
        r == (a@ == b@),
{
    String::from_str(a) == String::from_str(b)
}

/// The characters with every ASCII capital lowered.
pub fn lower_chars(s: &[char]) -> (out: Vec<char>)
    ensures
        out@ == lower_all(s@),
{
    let mut out: Vec<char> = Vec::new();
    let mut i: usize = 0;
    while i < s.len()
        invariant
            i <= s.len(),
            out@ == lower_all(s@.take(i as int)),
        decreases s.len() - i,
    {
        out.push(to_lower(s[i]));
        proof {
            assert(lower_all(s@.take(i as int + 1)) == lower_all(s@.take(i as int)).push(
                lower(s@[i as int]),
            ));
        }
        i = i + 1;
    }
    proof {
        assert(s@.take(s@.len() as int) == s@);
    }
    out
}

/// The texts of a list of strings.
pub open spec fn texts(v: Seq<String>) -> Seq<Seq<char>> {
    v.map_values(|s: String| s@)
}

/// The text of a string that may be missing.
pub open spec fn opt_text(s: Option<String>) -> Option<Seq<char>> {
    match s {
        Some(t) => Some(t@),
        None => None,
    }
}

// ----- Scans and searches -----

/// The first position from `i` on, below `lim`, whose character is not in the
/// class; `lim` if there is none.
pub open spec fn skip(s: Seq<char>, i: int, lim: int, class: Class) -> int
    decreases lim - i,
{
    if i < lim && class.has(s[i]) {
        skip(s, i + 1, lim, class)
    } else {
        i
    }
}

pub proof fn lemma_skip(s: Seq<char>, i: int, lim: int, class: Class)
    ensures
        i <= skip(s, i, lim, class),
        i <= lim ==> skip(s, i, lim, class) <= lim,
        i > lim ==> skip(s, i, lim, class) == i,
        forall|k: int| i <= k < skip(s, i, lim, class) ==> class.has(#[trigger] s[k]),
        skip(s, i, lim, class) < lim ==> !class.has(s[skip(s, i, lim, class)]),
    decreases lim - i,
{
    if i < lim && class.has(s[i]) {
        lemma_skip(s, i + 1, lim, class);
    }
}

pub fn skip_over(s: &[char], from: usize, lim: usize, class: Class) -> (r: usize)
    requires
        lim <= s.len(),
    ensures
        r == skip(s@, from as int, lim as int, class),
        from <= r,
        from <= lim ==> r <= lim,
        from > lim ==> r == from,
{
    let mut i: usize = from;
    while i < lim && class.contains(s[i])
        invariant
            from <= i,
            lim <= s.len(),
            from <= lim ==> i <= lim,
            from > lim ==> i == from,
            skip(s@, from as int, lim as int, class) == skip(s@, i as int, lim as int, class),
        decreases lim - i,
    {
        i = i + 1;
    }
    i
}

/// A scan stops behind a run of its class.
pub proof fn lemma_skip_to(s: Seq<char>, i: int, k: int, lim: int, class: Class)
    requires
        i <= k <= lim,
        forall|x: int| i <= x < k ==> class.has(#[trigger] s[x]),
        k == lim || !class.has(s[k]),
    ensures
        skip(s, i, lim, class) == k,
    decreases k - i,
{
    if i < k {
        lemma_skip_to(s, i + 1, k, lim, class);
    }
}

/// Whether the pattern stands in the text at position `i`.
pub open spec fn stands_at(s: Seq<char>, p: Seq<char>, i: int) -> bool {
    &&& 0 <= i
    &&& i + p.len() <= s.len()
    &&& s.subrange(i, i + p.len()) == p
}

/// The first place from `i` on where the pattern stands in the text and ends at
/// or before `lim`.
pub open spec fn find(s: Seq<char>, p: Seq<char>, i: int, lim: int) -> Option<int>
    decreases lim + 1 - i,
{
    if i + p.len() > lim {
        None
    } else if stands_at(s, p, i) {
        Some(i)
    } else {
        find(s, p, i + 1, lim)
    }
}

/// Whether the pattern stands anywhere in the text.
pub open spec fn holds(s: Seq<char>, p: Seq<char>) -> bool {
    find(s, p, 0, s.len() as int) is Some
}

/// What [`find`] gives is the first place of the pattern, and it gives nothing
/// only where there is none.
pub proof fn lemma_find(s: Seq<char>, p: Seq<char>, i: int, lim: int)
    requires
        0 <= i,
        lim <= s.len(),
    ensures
        match find(s, p, i, lim) {
            Some(k) => i <= k && k + p.len() <= lim && stands_at(s, p, k) && (forall|j: int|
                i <= j < k ==> !#[trigger] stands_at(s, p, j)),
            None => forall|j: int| i <= j && j + p.len() <= lim ==> !#[trigger] stands_at(s, p, j),
        },
    decreases lim + 1 - i,
{
    if i + p.len() > lim {
    } else if stands_at(s, p, i) {
    } else {
        lemma_find(s, p, i + 1, lim);
    }
}

/// A text holds what stands in it at some place.
pub proof fn lemma_holds_at(s: Seq<char>, p: Seq<char>, k: int)
    requires
        stands_at(s, p, k),
    ensures
        holds(s, p),
{
    lemma_find(s, p, 0, s.len() as int);
}

/// A text holds each of its parts.
pub proof fn lemma_holds_part(a: Seq<char>, p: Seq<char>, b: Seq<char>)
    ensures
        holds(a + p + b, p),
{
    let s = a + p + b;
    assert(s.subrange(a.len() as int, (a.len() + p.len()) as int) =~= p);
    lemma_holds_at(s, p, a.len() as int);
}

/// A text holds what one of its parts holds.
pub proof fn lemma_holds_inside(a: Seq<char>, s: Seq<char>, b: Seq<char>, p: Seq<char>)
    requires
        holds(s, p),
    ensures
        holds(a + s + b, p),
{
    lemma_find(s, p, 0, s.len() as int);
    let k = find(s, p, 0, s.len() as int)->0;
    let t = a + s + b;
    assert(t.subrange(a.len() + k, a.len() + k + p.len()) =~= s.subrange(k, k + p.len()));
    lemma_holds_at(t, p, a.len() + k);
}

pub fn matches_at(s: &[char], p: &[char], i: usize) -> (r: bool)
    requires
        i <= s.len(),
    ensures
        r == stands_at(s@, p@, i as int),
{
    if p.len() > s.len() - i {
        return false;
    }
    let mut k: usize = 0;
    while k < p.len()
        invariant
            k <= p.len(),
            i + p.len() <= s.len(),
            forall|j: int| 0 <= j < k ==> s@[i + j] == p@[j],
        decreases p.len() - k,
    {
        if s[i + k] != p[k] {
            proof {
                assert(s@.subrange(i as int, i + p@.len())[k as int] == s@[i + k]);
            }
            return false;
        }
        k = k + 1;
    }
    proof {
        assert(s@.subrange(i as int, i + p@.len()) =~= p@);
    }
    true
}

pub open spec fn opt_int(r: Option<usize>) -> Option<int> {
    match r {
        Some(k) => Some(k as int),
        None => None,
    }
}

pub fn find_from(s: &[char], p: &[char], from: usize, lim: usize) -> (r: Option<usize>)
    requires
        lim <= s.len(),
    ensures
        opt_int(r) == find(s@, p@, from as int, lim as int),
        r matches Some(k) ==> from <= k && k + p@.len() <= lim,
{
    let mut i: usize = from;
    while i <= lim && p.len() <= lim - i
        invariant
            from <= i,
            lim <= s.len(),
            find(s@, p@, from as int, lim as int) == find(s@, p@, i as int, lim as int),
        decreases lim + 1 - i,
    {
        if matches_at(s, p, i) {
            return Some(i);
        }
        if i == lim {
            proof {
                assert(find(s@, p@, i + 1, lim as int) is None);
            }
            return None;
        }
        i = i + 1;
    }
    None
}

/// Whether the lower-case pattern stands in the text at position `i`, whatever
/// the case of the text's ASCII letters.
pub open spec fn stands_at_ci(s: Seq<char>, p: Seq<char>, i: int) -> bool {
    &&& 0 <= i
    &&& i + p.len() <= s.len()
    &&& lower_all(s.subrange(i, i + p.len())) == p
}

/// The first place from `i` on, ending at or before `lim`, where the lower-case
/// pattern stands in the text, whatever the case of the text's ASCII letters.
pub open spec fn find_ci(s: Seq<char>, p: Seq<char>, i: int, lim: int) -> Option<int>
    decreases lim - i,
{
    if i >= lim || i + p.len() > lim {
        None
    } else if stands_at_ci(s, p, i) {
        Some(i)
    } else {
        find_ci(s, p, i + 1, lim)
    }
}

/// What is found stands there and nowhere before; where nothing is found, nothing stands.
pub proof fn lemma_find_ci(s: Seq<char>, p: Seq<char>, i: int, lim: int)
    requires
        p.len() > 0,
    ensures
        match find_ci(s, p, i, lim) {
            Some(k) => i <= k && k + p.len() <= lim && stands_at_ci(s, p, k) && forall|j: int|
                i <= j < k ==> !#[trigger] stands_at_ci(s, p, j),
            None => forall|j: int| i <= j && j + p.len() <= lim ==> !#[trigger] stands_at_ci(s, p, j),
        },
    decreases lim - i,
{
    if i < lim && i + p.len() <= lim && !stands_at_ci(s, p, i) {
        lemma_find_ci(s, p, i + 1, lim);
    }
}

/// Each character of a pattern that stands somewhere.
pub proof fn lemma_stands(s: Seq<char>, p: Seq<char>, i: int, y: int)
    requires
        stands_at_ci(s, p, i),
        0 <= y < p.len(),
    ensures
        lower(s[i + y]) == p[y],
{
    assert(lower_all(s.subrange(i, i + p.len()))[y] == lower(s.subrange(i, i + p.len())[y]));
}

pub fn matches_at_ci(s: &[char], p: &[char], i: usize) -> (r: bool)
    requires
        i <= s.len(),
    ensures
        r == stands_at_ci(s@, p@, i as int),
{
    if p.len() > s.len() - i {
        return false;
    }
    let mut k: usize = 0;
    while k < p.len()
        invariant
            k <= p.len(),
            i + p.len() <= s.len(),
            forall|j: int| 0 <= j < k ==> lower(s@[i + j]) == p@[j],
        decreases p.len() - k,
    {
        if to_lower(s[i + k]) != p[k] {
            proof {
                assert(lower_all(s@.subrange(i as int, i + p@.len()))[k as int] == lower(
                    s@[i + k],
                ));
            }
            return false;
        }
        k = k + 1;
    }
    proof {
        assert(lower_all(s@.subrange(i as int, i + p@.len())) =~= p@);
    }
    true
}

pub fn find_from_ci(s: &[char], p: &[char], from: usize, lim: usize) -> (r: Option<usize>)
    requires
        lim <= s.len(),
    ensures
        opt_int(r) == find_ci(s@, p@, from as int, lim as int),
        r matches Some(k) ==> from <= k && k + p@.len() <= lim && k < lim,
{
    let mut i: usize = from;
    while i < lim && p.len() <= lim - i
        invariant
            from <= i,
            lim <= s.len(),
            find_ci(s@, p@, from as int, lim as int) == find_ci(s@, p@, i as int, lim as int),
        decreases lim - i,
    {
        if matches_at_ci(s, p, i) {
            return Some(i);
        }
        i = i + 1;
    }
    None
}

/// The pattern's place in the text, whatever the case of either.
pub open spec fn holds_ci(s: Seq<char>, p: Seq<char>) -> bool {
    find_ci(s, p, 0, s.len() as int) is Some
}

/// Whether the lower-case pattern stands at position `i`, whatever the case of
/// the text's ASCII letters, and ends at or before `lim`.
pub open spec fn stands_in_ci(s: Seq<char>, p: Seq<char>, i: int, lim: int) -> bool {
    i + p.len() <= lim && stands_at_ci(s, p, i)
}

pub fn matches_in_ci(s: &[char], p: &[char], i: usize, lim: usize) -> (r: bool)
    requires
        i <= lim <= s.len(),
    ensures
        r == stands_in_ci(s@, p@, i as int, lim as int),
{
    p.len() <= lim - i && matches_at_ci(s, p, i)
}

/// Whether the text starts with the pattern.
pub open spec fn starts(s: Seq<char>, p: Seq<char>) -> bool {
    stands_at(s, p, 0)
}

/// Whether the text ends with the pattern.
pub open spec fn ends(s: Seq<char>, p: Seq<char>) -> bool {
    stands_at(s, p, s.len() - p.len())
}

pub fn starts_with(s: &[char], p: &str) -> (r: bool)
    ensures
        r == starts(s@, p@),
{
    matches_at(s, &chars_of(p), 0)
}

// ----- Splitting and joining -----

/// The parts of the text from `i` on, between any two occurrences of the separator.
pub open spec fn split(s: Seq<char>, i: int, sep: char) -> Seq<Seq<char>>
    decreases s.len() - i,
    when 0 <= i <= s.len()
    via split_ends
{
    let k = skip(s, i, s.len() as int, Class::Not(sep));
    if k >= s.len() {
        seq![s.subrange(i, s.len() as int)]
    } else {
        seq![s.subrange(i, k)] + split(s, k + 1, sep)
    }
}

#[via_fn]
proof fn split_ends(s: Seq<char>, i: int, sep: char) {
    lemma_skip(s, i, s.len() as int, Class::Not(sep));
}

pub fn split_at(s: &[char], sep: char) -> (out: Vec<String>)
    ensures
        texts(out@) == split(s@, 0, sep),
{
    let mut out: Vec<String> = Vec::new();
    let n = s.len();
    let mut i: usize = 0;
    proof {
        assert(texts(out@) + split(s@, 0, sep) =~= split(s@, 0, sep));
    }
    loop
        invariant
            i <= n,
            n == s.len(),
            texts(out@) + split(s@, i as int, sep) == split(s@, 0, sep),
        decreases n - i,
    {
        let k = skip_over(s, i, n, Class::Not(sep));
        let ghost had = texts(out@);
        let part = string_of(slice_subrange(s, i, k));
        out.push(part);
        proof {
            assert(texts(out@) =~= had + seq![s@.subrange(i as int, k as int)]);
        }
        if k >= n {
            return out;
        }
        proof {
            let here = seq![s@.subrange(i as int, k as int)];
            let rest = split(s@, k + 1, sep);
            assert((had + here) + rest =~= had + (here + rest));
        }
        i = k + 1;
    }
}

/// The texts one behind the other, with the separator between any two.
pub open spec fn join(parts: Seq<Seq<char>>, sep: Seq<char>) -> Seq<char>
    decreases parts.len(),
{
    if parts.len() == 0 {
        seq![]
    } else if parts.len() == 1 {
        parts[0]
    } else {
        join(parts.drop_last(), sep) + sep + parts.last()
    }
}

pub fn joined(parts: &Vec<String>, sep: &str) -> (out: String)
    ensures
        out@ == join(texts(parts@), sep@),
{
    let mut out = String::new();
    let mut i: usize = 0;
    while i < parts.len()
        invariant
            i <= parts.len(),
            out@ == join(texts(parts@).take(i as int), sep@),
        decreases parts.len() - i,
    {
        proof {
            let next = texts(parts@).take(i as int + 1);
            assert(next.drop_last() =~= texts(parts@).take(i as int));
            assert(next.last() == parts@[i as int]@);
        }
        if i > 0 {
            out.append(sep);
            out.append(parts[i].as_str());
        } else {
            out.append(parts[i].as_str());
            proof {
                assert(Seq::<char>::empty() + parts@[0]@ =~= parts@[0]@);
            }
        }
        i = i + 1;
    }
    proof {
        assert(texts(parts@).take(parts@.len() as int) =~= texts(parts@));
    }
    out
}

// ----- Numbers -----

/// A decimal digit.
pub open spec fn digit_char(d: nat) -> char {
    ((48 + d) as u8) as char
}

/// A number in decimal digits.
pub open spec fn decimal(n: nat) -> Seq<char>
    decreases n,
{
    if n < 10 {
        seq![digit_char(n)]
    } else {
        decimal(n / 10).push(digit_char(n % 10))
    }
}

/// Appends the number in decimal digits.
pub fn push_decimal(out: &mut String, n: u64)
    ensures
        final(out)@ == old(out)@ + decimal(n as nat),
    decreases n,
{
    let ghost had = out@;
    if n < 10 {
        out.push((48 + n as u8) as char);
        proof {
            assert(had.push(digit_char(n as nat)) =~= had + decimal(n as nat));
        }
    } else {
        push_decimal(out, n / 10);
        out.push((48 + (n % 10) as u8) as char);
        proof {
            assert((had + decimal((n / 10) as nat)).push(digit_char((n % 10) as nat)) =~= had
                + decimal(n as nat));
        }
    }
}

/// The number in decimal digits.
pub fn decimal_string(n: u64) -> (out: String)
    ensures
        out@ == decimal(n as nat),
{
    let mut out = String::new();
    push_decimal(&mut out, n);
    proof {
        assert(Seq::<char>::empty() + decimal(n as nat) =~= decimal(n as nat));
    }
    out
}

/// The number that a run of decimal digits stands for.
pub open spec fn digits_value(s: Seq<char>) -> nat
    decreases s.len(),
{
    if s.len() == 0 {
        0
    } else {
        digits_value(s.drop_last()) * 10 + (s.last() as nat - 48) as nat
    }
}

/// The number that the text stands for, if it is one and no greater than `max`:
/// decimal digits, behind a plus sign or not.
pub open spec fn parse_number(s: Seq<char>, max: nat) -> Option<nat> {
    let digits = if s.len() > 0 && s[0] == '+' {
        s.subrange(1, s.len() as int)
    } else {
        s
    };
    if digits.len() > 0 && skip(digits, 0, digits.len() as int, Class::Digit) == digits.len()
        && digits_value(digits) <= max {
        Some(digits_value(digits))
    } else {
        None
    }
}

/// A number is what its decimal digits stand for.
pub proof fn decimal_value(n: nat)
    ensures
        digits_value(decimal(n)) == n,
    decreases n,
{
    let last = decimal(n).last();
    if n >= 10 {
        decimal_value(n / 10);
        assert(decimal(n).drop_last() =~= decimal(n / 10));
        assert(last == digit_char(n % 10));
        assert(last as nat == 48 + n % 10);
    } else {
        assert(decimal(n).drop_last() =~= Seq::<char>::empty());
        assert(digits_value(Seq::<char>::empty()) == 0);
        assert(last == digit_char(n));
        assert(last as nat == 48 + n);
    }
}

/// Different numbers are written differently.
pub proof fn decimals_differ(a: nat, b: nat)
    ensures
        decimal(a) == decimal(b) <==> a == b,
{
    decimal_value(a);
    decimal_value(b);
}

pub proof fn lemma_decimal_digits(n: nat, i: int)
    requires
        0 <= i < decimal(n).len(),
    ensures
        is_digit(decimal(n)[i]),
        decimal(n).len() > 0,
    decreases n,
{
    if n >= 10 && i < decimal(n).len() - 1 {
        lemma_decimal_digits(n / 10, i);
    }
}

proof fn lemma_skip_all(s: Seq<char>, i: int, class: Class)
    requires
        0 <= i <= s.len(),
        forall|j: int| i <= j < s.len() ==> class.has(#[trigger] s[j]),
    ensures
        skip(s, i, s.len() as int, class) == s.len(),
    decreases s.len() - i,
{
    if i < s.len() {
        lemma_skip_all(s, i + 1, class);
    }
}

/// A number that was written is read back.
pub proof fn decimal_reads_back(n: nat, max: nat)
    requires
        n <= max,
    ensures
        parse_number(decimal(n), max) == Some(n),
{
    decimal_value(n);
    let s = decimal(n);
    assert(s.len() > 0);
    assert forall|j: int| 0 <= j < s.len() implies Class::Digit.has(#[trigger] s[j]) by {
        lemma_decimal_digits(n, j);
    }
    lemma_skip_all(s, 0, Class::Digit);
    assert(is_digit(s[0]));
}

proof fn lemma_digits_grow(s: Seq<char>, k: int)
    requires
        0 <= k <= s.len(),
        forall|i: int| 0 <= i < s.len() ==> is_digit(#[trigger] s[i]),
    ensures
        digits_value(s.take(k)) <= digits_value(s),
    decreases s.len() - k,
{
    if k < s.len() {
        lemma_digits_grow(s, k + 1);
        assert(s.take(k + 1).drop_last() =~= s.take(k));
    } else {
        assert(s.take(k) =~= s);
    }
}

/// Reads the number that the text stands for, if it is one and no greater than `max`.
pub fn read_number(s: &[char], max: u64) -> (r: Option<u64>)
    requires
        max < 0x1000_0000_0000_0000,
    ensures
        (match r {
            Some(n) => Some(n as nat),
            None => None,
        }) == parse_number(s@, max as nat),
{
    let from: usize = if s.len() > 0 && s[0] == '+' {
        1
    } else {
        0
    };
    let d = slice_subrange(s, from, s.len());
    proof {
        if from == 0 {
            assert(d@ =~= s@);
        }
        lemma_skip(d@, 0, d@.len() as int, Class::Digit);
    }
    if d.len() == 0 || skip_over(d, 0, d.len(), Class::Digit) != d.len() {
        return None;
    }
    let mut n: u64 = 0;
    let mut i: usize = 0;
    while i < d.len()
        invariant
            i <= d.len(),
            n <= max < 0x1000_0000_0000_0000,
            n == digits_value(d@.take(i as int)),
            forall|k: int| 0 <= k < d@.len() ==> is_digit(#[trigger] d@[k]),
            d@.len() > 0,
            skip(d@, 0, d@.len() as int, Class::Digit) == d@.len(),
            d@ == (if s@.len() > 0 && s@[0] == '+' {
                s@.subrange(1, s@.len() as int)
            } else {
                s@
            }),
        decreases d.len() - i,
    {
        proof {
            assert(d@.take(i as int + 1).drop_last() =~= d@.take(i as int));
            assert(is_digit(d@[i as int]));
        }
        n = n * 10 + (d[i] as u64 - 48);
        i = i + 1;
        if n > max {
            proof {
                lemma_digits_grow(d@, i as int);
            }
            return None;
        }
    }
    proof {
        assert(d@.take(d@.len() as int) =~= d@);
    }
    Some(n)
}

// ----- Trimming -----

/// Where the text's trailing characters of the class begin.
pub open spec fn tail_start(s: Seq<char>, end: int, class: Class) -> int
    decreases end,
{
    if end > 0 && class.has(s[end - 1]) {
        tail_start(s, end - 1, class)
    } else {
        end
    }
}

pub proof fn lemma_tail_start(s: Seq<char>, end: int, class: Class)
    requires
        0 <= end,
    ensures
        0 <= tail_start(s, end, class) <= end,
        forall|k: int| tail_start(s, end, class) <= k < end ==> class.has(#[trigger] s[k]),
        tail_start(s, end, class) > 0 ==> !class.has(s[tail_start(s, end, class) - 1]),
    decreases end,
{
    if end > 0 && class.has(s[end - 1]) {
        lemma_tail_start(s, end - 1, class);
    }
}

/// The text without its leading white space.
pub open spec fn trim_start(s: Seq<char>) -> Seq<char> {
    s.subrange(skip(s, 0, s.len() as int, Class::Blank), s.len() as int)
}

/// The text without its trailing white space.
pub open spec fn trim_end(s: Seq<char>) -> Seq<char> {
    s.subrange(0, tail_start(s, s.len() as int, Class::Blank))
}

/// The text without its leading and trailing white space.
pub open spec fn trim(s: Seq<char>) -> Seq<char> {
    trim_end(trim_start(s))
}

/// A text without white space around it stays as it is when it is trimmed.
pub proof fn lemma_not_trimmed(s: Seq<char>)
    requires
        s.len() > 0,
        !is_blank(s[0]),
        !is_blank(s.last()),
    ensures
        trim(s) == s,
{
    assert(skip(s, 0, s.len() as int, Class::Blank) == 0);
    assert(trim_start(s) =~= s);
    assert(tail_start(s, s.len() as int, Class::Blank) == s.len());
    assert(trim_end(s) =~= s);
}

/// What is trimmed has no white space around it, so trimming it again changes nothing.
pub proof fn trimming_twice_is_trimming(s: Seq<char>)
    ensures
        trim(trim(s)) == trim(s),
        trim(s).len() > 0 ==> !is_blank(trim(s)[0]) && !is_blank(trim(s).last()),
{
    let n = s.len() as int;
    let a = trim_start(s);
    lemma_skip(s, 0, n, Class::Blank);
    lemma_tail_start(a, a.len() as int, Class::Blank);
    let t = trim(s);
    if t.len() > 0 {
        assert(t[0] == s[skip(s, 0, n, Class::Blank)]);
        lemma_not_trimmed(t);
    } else {
        assert(trim(t) =~= t);
    }
}

/// A text with anything but white space in it is not trimmed to nothing.
pub proof fn lemma_trim_keeps(s: Seq<char>, k: int)
    requires
        0 <= k < s.len(),
        !is_blank(s[k]),
    ensures
        trim(s).len() > 0,
{
    let n = s.len() as int;
    let a = trim_start(s);
    let i = skip(s, 0, n, Class::Blank);
    lemma_skip(s, 0, n, Class::Blank);
    lemma_tail_start(a, a.len() as int, Class::Blank);
    assert(i <= k);
    assert(a[k - i] == s[k]);
}

pub fn trimmed_start(s: &[char]) -> (r: &[char])
    ensures
        r@ == trim_start(s@),
{
    let i = skip_over(s, 0, s.len(), Class::Blank);
    slice_subrange(s, i, s.len())
}

/// Where the trailing characters of the class begin.
pub fn tail_of(s: &[char], class: Class) -> (r: usize)
    ensures
        r == tail_start(s@, s@.len() as int, class),
        r <= s@.len(),
{
    let mut end: usize = s.len();
    while end > 0 && class.contains(s[end - 1])
        invariant
            end <= s.len(),
            tail_start(s@, s@.len() as int, class) == tail_start(s@, end as int, class),
        decreases end,
    {
        end = end - 1;
    }
    end
}

pub fn trimmed_end(s: &[char]) -> (r: &[char])
    ensures
        r@ == trim_end(s@),
{
    slice_subrange(s, 0, tail_of(s, Class::Blank))
}

pub fn trimmed(s: &[char]) -> (r: &[char])
    ensures
        r@ == trim(s@),
{
    trimmed_end(trimmed_start(s))
}

/// Whether the string is empty or holds white space alone.
pub fn is_blank_text(s: &str) -> (r: bool)
    ensures
        r == (trim(s@).len() == 0),
{
    let v = chars_of(s);
    trimmed(&v).len() == 0
}

/// The string without its leading and trailing white space.
pub fn trimmed_string(s: &str) -> (r: String)
    ensures
        r@ == trim(s@),
{
    let v = chars_of(s);
    string_of(trimmed(&v))
}

// ----- How often letters occur -----

/// How many characters of the text are one of the lower-case letters, whatever their case.
pub open spec fn tally(s: Seq<char>, letters: Seq<char>) -> nat
    decreases s.len(),
{
    if s.len() == 0 {
        0
    } else {
        tally(s.drop_last(), letters) + if letters.contains(lower(s.last())) {
            1nat
        } else {
            0nat
        }
    }
}

pub proof fn lemma_tally_parts(x: Seq<char>, y: Seq<char>, letters: Seq<char>)
    ensures
        tally(x + y, letters) == tally(x, letters) + tally(y, letters),
    decreases y.len(),
{
    if y.len() == 0 {
        assert(x + y =~= x);
    } else {
        assert((x + y).drop_last() =~= x + y.drop_last());
        lemma_tally_parts(x, y.drop_last(), letters);
    }
}

pub proof fn lemma_tally_some(s: Seq<char>, letters: Seq<char>, k: int)
    requires
        0 <= k < s.len(),
        letters.contains(lower(s[k])),
    ensures
        tally(s, letters) > 0,
    decreases s.len(),
{
    if k < s.len() - 1 {
        lemma_tally_some(s.drop_last(), letters, k);
    }
}

pub proof fn lemma_tally_none(s: Seq<char>, letters: Seq<char>)
    requires
        forall|k: int| 0 <= k < s.len() ==> !letters.contains(lower(#[trigger] s[k])),
    ensures
        tally(s, letters) == 0,
    decreases s.len(),
{
    if s.len() > 0 {
        lemma_tally_none(s.drop_last(), letters);
    }
}

} // verus!
