//! Reading a document's markup: where comments and tags end, and where its head begins.

use vstd::prelude::*;
use vstd::slice::slice_subrange;

use crate::remote::{
    attribute_at, behind_element, body_end, body_start, closing_tag, find_behind_element,
    find_body_end, lemma_attribute, lemma_body_end, lemma_text_end, name_start,
    read_attribute,
};
use crate::text::{
    chars_of, is_space, lemma_skip, lemma_stands, lower_all, lower_chars, matches_at,
    matches_in_ci, opt_int, same, skip, skip_over, space, stands_at, stands_in_ci, string_of, Class,
};

verus! {

// ----- Comments and declarations -----

/// Whether a comment or a declaration opens at `i`.
pub open spec fn opens_declaration(s: Seq<char>, i: int) -> bool {
    i + 1 < s.len() && s[i] == '<' && (s[i + 1] == '!' || s[i + 1] == '?')
}

/// Behind the first `-->` from `k` on, or the first `--!>` from `body` on, whichever
/// comes first.
pub open spec fn comment_close(s: Seq<char>, k: int, body: int) -> Option<int>
    decreases s.len() - k,
{
    if k >= s.len() {
        None
    } else if stands_at(s, seq!['-', '-', '>'], k) {
        Some(k + 3)
    } else if k >= body && stands_at(s, seq!['-', '-', '!', '>'], k) {
        Some(k + 4)
    } else {
        comment_close(s, k + 1, body)
    }
}

/// Behind the comment or declaration that opens at `i`, if it closes.
pub open spec fn declaration_end(s: Seq<char>, i: int) -> Option<int> {
    let close = skip(s, i, s.len() as int, Class::Not('>'));
    if stands_at(s, seq!['<', '!', '-', '-'], i) {
        comment_close(s, i + 2, i + 4)
    } else if close < s.len() {
        Some(close + 1)
    } else {
        None
    }
}

proof fn lemma_comment_close(s: Seq<char>, k: int, body: int)
    ensures
        comment_close(s, k, body) matches Some(e) ==> k < e <= s.len(),
    decreases s.len() - k,
{
    if k < s.len() {
        lemma_comment_close(s, k + 1, body);
    }
}

pub proof fn lemma_declaration(s: Seq<char>, i: int)
    ensures
        declaration_end(s, i) matches Some(e) ==> i < e <= s.len(),
{
    lemma_comment_close(s, i + 2, i + 4);
    lemma_skip(s, i, s.len() as int, Class::Not('>'));
}

/// Reads where the comment or declaration that opens at `i` ends.
pub fn read_declaration(s: &[char], i: usize) -> (r: Option<usize>)
    requires
        i + 1 < s.len(),
    ensures
        opt_int(r) == declaration_end(s@, i as int),
        r matches Some(e) ==> i < e <= s.len(),
{
    proof {
        lemma_declaration(s@, i as int);
    }
    let open: Vec<char> = vec!['<', '!', '-', '-'];
    assert(open@ =~= seq!['<', '!', '-', '-']);
    if !matches_at(s, &open, i) {
        let close = skip_over(s, i, s.len(), Class::Not('>'));
        return if close < s.len() {
            Some(close + 1)
        } else {
            None
        };
    }
    let short: Vec<char> = vec!['-', '-', '>'];
    let long: Vec<char> = vec!['-', '-', '!', '>'];
    assert(short@ =~= seq!['-', '-', '>']);
    assert(long@ =~= seq!['-', '-', '!', '>']);
    let mut k: usize = i + 2;
    while k < s.len()
        invariant
            i + 2 <= k,
            stands_at(s@, seq!['<', '!', '-', '-'], i as int),
            short@ == seq!['-', '-', '>'],
            long@ == seq!['-', '-', '!', '>'],
            comment_close(s@, k as int, i + 4) == comment_close(s@, i + 2, i + 4),
        decreases s.len() - k,
    {
        if matches_at(s, &short, k) {
            return Some(k + 3);
        }
        if k >= i + 4 && matches_at(s, &long, k) {
            return Some(k + 4);
        }
        k = k + 1;
    }
    None
}

// ----- Tags -----

/// Where the tag ends whose attributes are read from `j` on: at its `>`, which quoted
/// values may hold, or with the document.
pub open spec fn tag_end(s: Seq<char>, j: int) -> int
    decreases s.len() - j,
    when 0 <= j
    via tag_end_ends
{
    if j >= s.len() || s[j] == '>' {
        j
    } else if is_space(s[j]) || s[j] == '/' {
        tag_end(s, j + 1)
    } else {
        tag_end(s, attribute_at(s, j).next)
    }
}

#[via_fn]
proof fn tag_end_ends(s: Seq<char>, j: int) {
    if j < s.len() {
        lemma_attribute(s, j);
    }
}

pub proof fn lemma_tag(s: Seq<char>, j: int)
    requires
        0 <= j <= s.len(),
    ensures
        j <= tag_end(s, j) <= s.len(),
        tag_end(s, j) < s.len() ==> s[tag_end(s, j)] == '>',
    decreases s.len() - j,
{
    if j >= s.len() || s[j] == '>' {
    } else if is_space(s[j]) || s[j] == '/' {
        lemma_tag(s, j + 1);
    } else {
        lemma_attribute(s, j);
        lemma_tag(s, attribute_at(s, j).next);
    }
}

/// Reads where the tag ends whose attributes are read from `j` on.
pub fn read_tag_end(s: &[char], j: usize) -> (r: usize)
    requires
        j <= s.len(),
    ensures
        r == tag_end(s@, j as int),
        j <= r <= s.len(),
{
    let mut k: usize = j;
    while k < s.len() && s[k] != '>'
        invariant
            j <= k <= s.len(),
            tag_end(s@, k as int) == tag_end(s@, j as int),
        decreases s.len() - k,
    {
        if space(s[k]) || s[k] == '/' {
            k = k + 1;
        } else {
            k = read_attribute(s, k).next;
        }
    }
    k
}

/// Whether the tag with that opening stands at `i`: a real tag, not a longer word that
/// begins alike.
pub open spec fn tag_stands(s: Seq<char>, opening: Seq<char>, i: int) -> bool {
    let n = s.len() as int;
    let after = i + opening.len();
    &&& stands_in_ci(s, opening, i, n)
    &&& (after >= n || s[after] == '>' || is_space(s[after]) || s[after] == '/')
}

pub fn tag_at(s: &[char], opening: &[char], i: usize) -> (r: bool)
    requires
        i <= s.len(),
    ensures
        r == tag_stands(s@, opening@, i as int),
{
    if !matches_in_ci(s, opening, i, s.len()) {
        return false;
    }
    let after = i + opening.len();
    after >= s.len() || s[after] == '>' || space(s[after]) || s[after] == '/'
}

// ----- The stylesheets of a document -----

/// Where the first stylesheet of the document from `i` on stands: the contents of the
/// next `<style>`. Text, the text of elements, comments and quoted values hold none.
pub open spec fn next_sheet(s: Seq<char>, i: int) -> Option<(int, int)>
    decreases s.len() - i,
    when 0 <= i
    via next_sheet_ends
{
    let ns = name_start(s, i);
    let ne = skip(s, ns, s.len() as int, Class::TagName);
    let close = tag_end(s, ne);
    if i >= s.len() {
        None
    } else if opens_declaration(s, i) {
        match declaration_end(s, i) {
            Some(e) => next_sheet(s, e),
            None => None,
        }
    } else if s[i] != '<' || ne == ns {
        next_sheet(s, i + 1)
    } else if lower_all(s.subrange(ns, ne)) == "style"@ && ns == i + 1 {
        let start = body_start(s, close);
        Some((start, body_end(s, start)))
    } else {
        next_sheet(s, behind_element(s, lower_all(s.subrange(ns, ne)), ns == i + 1, close, 0))
    }
}

#[via_fn]
proof fn next_sheet_ends(s: Seq<char>, i: int) {
    lemma_markup_step(s, i);
}

/// A step of a reading of the document by its tags.
pub proof fn lemma_markup_step(s: Seq<char>, i: int)
    requires
        0 <= i,
    ensures
        declaration_end(s, i) matches Some(e) ==> i < e <= s.len(),
        i < s.len() ==> ({
            let ns = name_start(s, i);
            let ne = skip(s, ns, s.len() as int, Class::TagName);
            let close = tag_end(s, ne);
            let start = body_start(s, close);
            ne != ns ==> {
                &&& i < ns < ne <= close <= start <= body_end(s, start) <= s.len()
                &&& close <= behind_element(
                    s,
                    lower_all(s.subrange(ns, ne)),
                    ns == i + 1,
                    close,
                    0,
                ) <= s.len()
            }
        }),
{
    lemma_declaration(s, i);
    if i < s.len() {
        let ns = name_start(s, i);
        let ne = skip(s, ns, s.len() as int, Class::TagName);
        lemma_skip(s, ns, s.len() as int, Class::TagName);
        if ne != ns {
            lemma_tag(s, ne);
            let start = body_start(s, tag_end(s, ne));
            lemma_body_end(s, start);
            lemma_text_end(s, closing_tag(lower_all(s.subrange(ns, ne))), start);
        }
    }
}

pub proof fn lemma_next_sheet(s: Seq<char>, i: int)
    requires
        0 <= i,
    ensures
        next_sheet(s, i) matches Some(p) ==> i < p.0 <= p.1 <= s.len(),
    decreases s.len() - i,
{
    if i < s.len() {
        lemma_markup_step(s, i);
        let ns = name_start(s, i);
        let ne = skip(s, ns, s.len() as int, Class::TagName);
        if opens_declaration(s, i) {
            if let Some(e) = declaration_end(s, i) {
                lemma_next_sheet(s, e);
            }
        } else if s[i] != '<' || ne == ns {
            lemma_next_sheet(s, i + 1);
        } else {
            let tag = lower_all(s.subrange(ns, ne));
            lemma_next_sheet(s, behind_element(s, tag, ns == i + 1, tag_end(s, ne), 0));
        }
    }
}

/// Finds the first stylesheet of the document from `from` on.
pub fn find_sheet(s: &[char], from: usize) -> (r: Option<(usize, usize)>)
    requires
        from <= s.len(),
    ensures
        match r {
            Some(p) => next_sheet(s@, from as int) == Some((p.0 as int, p.1 as int)) && from < p.0
                <= p.1 <= s.len(),
            None => next_sheet(s@, from as int) is None,
        },
{
    let n = s.len();
    let mut i: usize = from;
    while i < n
        invariant
            from <= i <= n,
            n == s.len(),
            next_sheet(s@, i as int) == next_sheet(s@, from as int),
        decreases n - i,
    {
        proof {
            lemma_markup_step(s@, i as int);
        }
        if n - i > 1 && s[i] == '<' && (s[i + 1] == '!' || s[i + 1] == '?') {
            match read_declaration(s, i) {
                Some(e) => {
                    i = e;
                },
                None => {
                    return None;
                },
            }
            continue ;
        }
        let closing = n - i > 1 && s[i + 1] == '/';
        let name_from: usize = if closing {
            i + 2
        } else {
            i + 1
        };
        let name_to = skip_over(s, name_from, n, Class::TagName);
        if s[i] != '<' || name_to == name_from {
            i = i + 1;
        } else {
            let lowered = lower_chars(slice_subrange(s, name_from, name_to));
            let tag = string_of(&lowered);
            let close = read_tag_end(s, name_to);
            if same(tag.as_str(), "style") && !closing {
                let start: usize = if close < n {
                    close + 1
                } else {
                    n
                };
                let end = find_body_end(s, start);
                return Some((start, end));
            }
            i = find_behind_element(s, tag.as_str(), !closing, close, false);
        }
    }
    None
}

// ----- The end of a document -----

/// Whether a tag that closes the document or its body stands at `i`.
pub open spec fn closes_document(s: Seq<char>, i: int) -> bool {
    tag_stands(s, "</body"@, i) || tag_stands(s, "</html"@, i)
}

pub open spec fn begun(from: Option<int>, i: int) -> int {
    match from {
        Some(k) => k,
        None => i,
    }
}

/// Where the document's end begins: in front of the closing tags of the document and its
/// body behind which nothing follows but white space, comments and a tag or an element
/// that does not close. The document is read from `i` on; `from` is where such an end has begun.
pub open spec fn ending(s: Seq<char>, i: int, from: Option<int>) -> int
    decreases s.len() - i,
    when 0 <= i
    via ending_ends
{
    let ns = name_start(s, i);
    let ne = skip(s, ns, s.len() as int, Class::TagName);
    let tag = lower_all(s.subrange(ns, ne));
    let close = tag_end(s, ne);
    if i >= s.len() {
        begun(from, s.len() as int)
    } else if opens_declaration(s, i) {
        match declaration_end(s, i) {
            Some(e) => ending(s, e, from),
            None => begun(from, i),
        }
    } else if is_space(s[i]) {
        ending(s, i + 1, from)
    } else if s[i] != '<' || ne == ns {
        ending(s, i + 1, None)
    } else if stays_open(s, i) {
        begun(from, i)
    } else if closes_document(s, i) {
        ending(s, close + 1, Some(begun(from, i)))
    } else {
        ending(s, behind_element(s, tag, ns == i + 1, close, 0) + 1, None)
    }
}

/// Whether the tag at `i` does not close, or opens an element whose text nothing ends.
pub open spec fn stays_open(s: Seq<char>, i: int) -> bool {
    let ns = name_start(s, i);
    let ne = skip(s, ns, s.len() as int, Class::TagName);
    behind_element(s, lower_all(s.subrange(ns, ne)), ns == i + 1, tag_end(s, ne), 0) >= s.len()
}

#[via_fn]
proof fn ending_ends(s: Seq<char>, i: int, from: Option<int>) {
    lemma_markup_step(s, i);
}

/// Whether nothing stands from `i` on but closing tags of the document and its body,
/// white space, comments and a tag or an element that does not close.
pub open spec fn nothing_but_ends(s: Seq<char>, i: int) -> bool
    decreases s.len() - i,
    when 0 <= i
    via nothing_but_ends_ends
{
    let ns = name_start(s, i);
    let ne = skip(s, ns, s.len() as int, Class::TagName);
    let close = tag_end(s, ne);
    if i >= s.len() {
        true
    } else if opens_declaration(s, i) {
        match declaration_end(s, i) {
            Some(e) => nothing_but_ends(s, e),
            None => true,
        }
    } else if is_space(s[i]) {
        nothing_but_ends(s, i + 1)
    } else if s[i] != '<' || ne == ns {
        false
    } else if stays_open(s, i) {
        true
    } else {
        closes_document(s, i) && nothing_but_ends(s, close + 1)
    }
}

#[via_fn]
proof fn nothing_but_ends_ends(s: Seq<char>, i: int) {
    lemma_markup_step(s, i);
}

/// Behind where a document's end begins stands nothing but its end.
pub proof fn lemma_ending(s: Seq<char>, i: int, from: Option<int>)
    requires
        0 <= i <= s.len(),
        from matches Some(k) ==> 0 <= k <= i && nothing_but_ends(s, k) == nothing_but_ends(s, i),
    ensures
        0 <= ending(s, i, from) <= s.len(),
        nothing_but_ends(s, ending(s, i, from)),
    decreases s.len() - i,
{
    if i < s.len() {
        lemma_markup_step(s, i);
        let ns = name_start(s, i);
        let ne = skip(s, ns, s.len() as int, Class::TagName);
        let close = tag_end(s, ne);
        if opens_declaration(s, i) {
            if let Some(e) = declaration_end(s, i) {
                lemma_ending(s, e, from);
            }
        } else if is_space(s[i]) {
            lemma_ending(s, i + 1, from);
        } else if s[i] != '<' || ne == ns {
            lemma_ending(s, i + 1, None);
        } else if stays_open(s, i) {
        } else if closes_document(s, i) {
            lemma_ending(s, close + 1, Some(begun(from, i)));
        } else {
            let tag = lower_all(s.subrange(ns, ne));
            lemma_ending(s, behind_element(s, tag, ns == i + 1, close, 0) + 1, None);
        }
    }
}

/// Finds where the document's end begins.
pub fn find_ending(s: &[char]) -> (r: usize)
    ensures
        r == ending(s@, 0, None),
        r <= s.len(),
{
    proof {
        lemma_ending(s@, 0, None);
    }
    let body = chars_of("</body");
    let html = chars_of("</html");
    let n = s.len();
    let mut i: usize = 0;
    let mut from: Option<usize> = None;
    while i < n
        invariant
            i <= n,
            n == s.len(),
            body@ == "</body"@,
            html@ == "</html"@,
            ending(s@, i as int, opt_int(from)) == ending(s@, 0, None),
            0 <= ending(s@, 0, None) <= n,
        decreases n - i,
    {
        proof {
            lemma_markup_step(s@, i as int);
        }
        let here: usize = match from {
            Some(k) => k,
            None => i,
        };
        if n - i > 1 && s[i] == '<' && (s[i + 1] == '!' || s[i + 1] == '?') {
            match read_declaration(s, i) {
                Some(e) => {
                    i = e;
                },
                None => {
                    return here;
                },
            }
            continue ;
        }
        if space(s[i]) {
            i = i + 1;
            continue ;
        }
        let closing = n - i > 1 && s[i + 1] == '/';
        let name_from: usize = if closing {
            i + 2
        } else {
            i + 1
        };
        let name_to = skip_over(s, name_from, n, Class::TagName);
        if s[i] != '<' || name_to == name_from {
            i = i + 1;
            from = None;
            continue ;
        }
        let lowered = lower_chars(slice_subrange(s, name_from, name_to));
        let tag = string_of(&lowered);
        let close = read_tag_end(s, name_to);
        let next = find_behind_element(s, tag.as_str(), !closing, close, false);
        if next >= n {
            return here;
        }
        if tag_at(s, &body, i) || tag_at(s, &html, i) {
            from = Some(here);
            i = close + 1;
        } else {
            from = None;
            i = next + 1;
        }
    }
    match from {
        Some(k) => k,
        None => n,
    }
}

// ----- The head of a document -----

/// Behind what may stand in front of a document's first tags: white space, comments and
/// declarations.
pub open spec fn prologue(s: Seq<char>, i: int) -> int
    decreases s.len() - i,
    via prologue_ends
{
    let p = skip(s, i, s.len() as int, Class::Space);
    if opens_declaration(s, p) {
        match declaration_end(s, p) {
            Some(e) => prologue(s, e),
            None => p,
        }
    } else {
        p
    }
}

#[via_fn]
proof fn prologue_ends(s: Seq<char>, i: int) {
    lemma_skip(s, i, s.len() as int, Class::Space);
    lemma_declaration(s, skip(s, i, s.len() as int, Class::Space));
}

proof fn lemma_prologue(s: Seq<char>, i: int)
    requires
        0 <= i <= s.len(),
    ensures
        i <= prologue(s, i) <= s.len(),
    decreases s.len() - i,
{
    let p = skip(s, i, s.len() as int, Class::Space);
    lemma_skip(s, i, s.len() as int, Class::Space);
    lemma_declaration(s, p);
    if opens_declaration(s, p) {
        if let Some(e) = declaration_end(s, p) {
            lemma_prologue(s, e);
        }
    }
}

/// Behind the tag with that opening at `i`, if it stands there and closes.
pub open spec fn behind_tag(s: Seq<char>, opening: Seq<char>, i: int) -> Option<int> {
    let close = tag_end(s, i + opening.len());
    if tag_stands(s, opening, i) && close < s.len() {
        Some(close + 1)
    } else {
        None
    }
}

/// Behind the document's `<html>`, if it has one.
pub open spec fn root_place(s: Seq<char>) -> Option<int> {
    behind_tag(s, "<html"@, prologue(s, 0))
}

/// Where the document's head begins: behind its `<head>`, if it has one. Nothing but
/// white space, comments, declarations and the `<html>` may stand in front of it: behind
/// anything else a `<head>` opens no head.
pub open spec fn head_place(s: Seq<char>) -> Option<int> {
    let from = match root_place(s) {
        Some(at) => at,
        None => 0,
    };
    behind_tag(s, "<head"@, prologue(s, from))
}

fn read_prologue(s: &[char], from: usize) -> (r: usize)
    requires
        from <= s.len(),
    ensures
        r == prologue(s@, from as int),
        from <= r <= s.len(),
{
    let mut i: usize = from;
    loop
        invariant
            from <= i <= s.len(),
            prologue(s@, i as int) == prologue(s@, from as int),
        decreases s.len() - i,
    {
        let p = skip_over(s, i, s.len(), Class::Space);
        if s.len() - p > 1 && s[p] == '<' && (s[p + 1] == '!' || s[p + 1] == '?') {
            match read_declaration(s, p) {
                Some(e) => {
                    i = e;
                },
                None => {
                    return p;
                },
            }
        } else {
            return p;
        }
    }
}

fn find_behind_tag(s: &[char], opening: &str, i: usize) -> (r: Option<usize>)
    requires
        i <= s.len(),
    ensures
        opt_int(r) == behind_tag(s@, opening@, i as int),
        r matches Some(at) ==> at <= s@.len(),
{
    let pattern = chars_of(opening);
    if !tag_at(s, &pattern, i) {
        return None;
    }
    let close = read_tag_end(s, i + pattern.len());
    if close < s.len() {
        Some(close + 1)
    } else {
        None
    }
}

/// Finds the end of the document's `<html>`.
pub fn find_root_place(s: &[char]) -> (r: Option<usize>)
    ensures
        opt_int(r) == root_place(s@),
        r matches Some(at) ==> at <= s@.len(),
{
    find_behind_tag(s, "<html", read_prologue(s, 0))
}

/// Finds where the document's head begins.
pub fn find_head_place(s: &[char]) -> (r: Option<usize>)
    ensures
        opt_int(r) == head_place(s@),
        r matches Some(at) ==> at <= s@.len(),
{
    let from: usize = match find_root_place(s) {
        Some(at) => at,
        None => 0,
    };
    find_behind_tag(s, "<head", read_prologue(s, from))
}

// ----- What a beginning decides -----

/// Whether the two texts have the same first `m` characters.
pub open spec fn agree(s: Seq<char>, t: Seq<char>, m: int) -> bool {
    &&& 0 <= m <= s.len()
    &&& m <= t.len()
    &&& forall|x: int| 0 <= x < m ==> #[trigger] s[x] == t[x]
}

proof fn lemma_skip_agrees(s: Seq<char>, t: Seq<char>, m: int, i: int, class: Class)
    requires
        agree(s, t, m),
        0 <= i,
        skip(s, i, s.len() as int, class) < m,
    ensures
        skip(t, i, t.len() as int, class) == skip(s, i, s.len() as int, class),
    decreases m - i,
{
    lemma_skip(s, i, s.len() as int, class);
    assert(s[i] == t[i]);
    if class.has(s[i]) {
        lemma_skip_agrees(s, t, m, i + 1, class);
    }
}

proof fn lemma_stands_agrees(s: Seq<char>, t: Seq<char>, m: int, p: Seq<char>, i: int)
    requires
        agree(s, t, m),
        0 <= i,
        i + p.len() <= m,
    ensures
        stands_at(s, p, i) == stands_at(t, p, i),
        stands_in_ci(s, p, i, s.len() as int) == stands_in_ci(t, p, i, t.len() as int),
{
    assert(s.subrange(i, i + p.len()) =~= t.subrange(i, i + p.len()));
}

proof fn lemma_close_agrees(s: Seq<char>, t: Seq<char>, m: int, k: int, body: int)
    requires
        agree(s, t, m),
        0 <= k,
        comment_close(s, k, body) is Some,
        comment_close(s, k, body)->0 <= m,
    ensures
        comment_close(t, k, body) == comment_close(s, k, body),
    decreases m - k,
{
    let short = seq!['-', '-', '>'];
    let long = seq!['-', '-', '!', '>'];
    lemma_comment_close(s, k, body);
    if stands_at(s, short, k) {
        lemma_stands_agrees(s, t, m, short, k);
    } else if k >= body && stands_at(s, long, k) {
        lemma_stands_agrees(s, t, m, short, k);
        lemma_stands_agrees(s, t, m, long, k);
    } else {
        lemma_comment_close(s, k + 1, body);
        lemma_close_agrees(s, t, m, k + 1, body);
        if stands_at(t, short, k) {
            assert(t.subrange(k, k + 3)[0] == '-' && t.subrange(k, k + 3)[1] == '-'
                && t.subrange(k, k + 3)[2] == '>');
            if k + 3 <= m {
                lemma_stands_agrees(s, t, m, short, k);
            }
            lemma_close_wide(s, k + 1, body);
        }
        if k >= body && stands_at(t, long, k) {
            if k + 4 <= m {
                lemma_stands_agrees(s, t, m, long, k);
            } else {
                lemma_close_wide(s, k + 1, body);
                let e = comment_close(s, k + 1, body)->0;
                assert(e == k + 4 && m == k + 4);
            }
        }
    }
}

/// A close takes three characters at least.
proof fn lemma_close_wide(s: Seq<char>, k: int, body: int)
    ensures
        comment_close(s, k, body) matches Some(e) ==> k + 3 <= e,
    decreases s.len() - k,
{
    if k < s.len() {
        lemma_close_wide(s, k + 1, body);
    }
}

proof fn lemma_prologue_agrees(s: Seq<char>, t: Seq<char>, m: int, i: int)
    requires
        agree(s, t, m),
        0 <= i <= s.len(),
        prologue(s, i) + 1 < m,
        !opens_declaration(s, prologue(s, i)),
    ensures
        prologue(t, i) == prologue(s, i),
    decreases s.len() - i,
{
    let p = skip(s, i, s.len() as int, Class::Space);
    lemma_skip(s, i, s.len() as int, Class::Space);
    lemma_declaration(s, p);
    lemma_prologue(s, i);
    if opens_declaration(s, p) {
        let e = declaration_end(s, p)->0;
        lemma_prologue(s, e);
        lemma_skip_agrees(s, t, m, i, Class::Space);
        assert(s[p] == t[p] && s[p + 1] == t[p + 1]);
        let open = seq!['<', '!', '-', '-'];
        if stands_at(s, open, p) {
            lemma_close_wide(s, p + 2, p + 4);
            lemma_stands_agrees(s, t, m, open, p);
            lemma_close_agrees(s, t, m, p + 2, p + 4);
        } else {
            lemma_skip_agrees(s, t, m, p, Class::Not('>'));
            lemma_skip(s, p, s.len() as int, Class::Not('>'));
            assert(s[e - 1] == '>');
            lemma_stands_agrees(s, t, m, open, p);
        }
        lemma_prologue_agrees(s, t, m, e);
    } else {
        lemma_skip_agrees(s, t, m, i, Class::Space);
        assert(s[p] == t[p] && s[p + 1] == t[p + 1]);
    }
}

proof fn lemma_attribute_agrees(s: Seq<char>, t: Seq<char>, m: int, j: int)
    requires
        agree(s, t, m),
        0 <= j < s.len(),
        tag_end(s, attribute_at(s, j).next) < m,
    ensures
        attribute_at(t, j).next == attribute_at(s, j).next,
{
    let n = s.len() as int;
    lemma_attribute(s, j);
    lemma_tag(s, attribute_at(s, j).next);
    let name_end = skip(s, j, n, Class::AttrName);
    lemma_skip(s, j, n, Class::AttrName);
    assert(s[j] == t[j]);
    if name_end == j {
        reveal_with_fuel(skip, 2);
        assert(skip(t, j, t.len() as int, Class::AttrName) == j);
    } else {
        lemma_skip_agrees(s, t, m, j, Class::AttrName);
        let eq = skip(s, name_end, n, Class::Space);
        lemma_skip(s, name_end, n, Class::Space);
        if eq < n && s[eq] == '=' {
            let v = skip(s, eq + 1, n, Class::Space);
            lemma_skip(s, eq + 1, n, Class::Space);
            lemma_skip(s, v, n, Class::Unquoted);
            if v < n {
                lemma_skip(s, v + 1, n, Class::Not(s[v]));
            }
            lemma_skip_agrees(s, t, m, name_end, Class::Space);
            lemma_skip_agrees(s, t, m, eq + 1, Class::Space);
            assert(s[eq] == t[eq] && s[v] == t[v]);
            if s[v] == '"' || s[v] == '\'' {
                lemma_skip_agrees(s, t, m, v + 1, Class::Not(s[v]));
            } else {
                lemma_skip_agrees(s, t, m, v, Class::Unquoted);
            }
        } else {
            lemma_tag_spaces(s, name_end);
            lemma_skip_agrees(s, t, m, name_end, Class::Space);
            assert(s[eq] == t[eq]);
        }
    }
}

/// A tag does not end before the white space in it does.
proof fn lemma_tag_spaces(s: Seq<char>, j: int)
    requires
        0 <= j <= s.len(),
    ensures
        skip(s, j, s.len() as int, Class::Space) <= tag_end(s, j),
    decreases s.len() - j,
{
    if j < s.len() && is_space(s[j]) {
        lemma_tag_spaces(s, j + 1);
    } else {
        lemma_tag(s, j);
    }
}

proof fn lemma_tag_agrees(s: Seq<char>, t: Seq<char>, m: int, j: int)
    requires
        agree(s, t, m),
        0 <= j <= s.len(),
        tag_end(s, j) < m,
    ensures
        tag_end(t, j) == tag_end(s, j),
    decreases s.len() - j,
{
    lemma_tag(s, j);
    assert(s[j] == t[j]);
    if s[j] == '>' {
    } else if is_space(s[j]) || s[j] == '/' {
        lemma_tag_agrees(s, t, m, j + 1);
    } else {
        lemma_attribute(s, j);
        lemma_attribute_agrees(s, t, m, j);
        lemma_tag_agrees(s, t, m, attribute_at(s, j).next);
    }
}

/// A tag that opens a document, or its head, is the same in every text that begins alike
/// up to its end.
proof fn lemma_behind_agrees(s: Seq<char>, t: Seq<char>, m: int, opening: Seq<char>, i: int)
    requires
        agree(s, t, m),
        0 <= i,
        opening.len() > 1,
        opening[0] == '<',
        opening[1] == 'h',
        behind_tag(s, opening, i) is Some,
        behind_tag(s, opening, i)->0 <= m,
    ensures
        behind_tag(t, opening, i) == behind_tag(s, opening, i),
        i + 1 < m,
        !opens_declaration(s, i),
{
    let after = i + opening.len();
    lemma_tag(s, after);
    lemma_tag_agrees(s, t, m, after);
    lemma_stands_agrees(s, t, m, opening, i);
    assert(s[after] == t[after]);
    lemma_stands(s, opening, i, 1);
}

/// Where the document has a head, every text that begins alike up to there has it there
/// too.
proof fn lemma_head_agrees(s: Seq<char>, t: Seq<char>, m: int)
    requires
        agree(s, t, m),
        head_place(s) is Some,
        head_place(s)->0 <= m,
    ensures
        head_place(t) == head_place(s),
{
    reveal_strlit("<html");
    reveal_strlit("<head");
    lemma_prologue(s, 0);
    match root_place(s) {
        Some(at) => {
            lemma_tag(s, prologue(s, 0) + 5);
            lemma_prologue(s, at);
            lemma_tag(s, prologue(s, at) + 5);
            lemma_root_agrees(s, t, m);
            lemma_behind_agrees(s, t, m, "<head"@, prologue(s, at));
            lemma_prologue_agrees(s, t, m, at);
        },
        None => {
            let p = prologue(s, 0);
            lemma_behind_agrees(s, t, m, "<head"@, p);
            lemma_prologue_agrees(s, t, m, 0);
            lemma_stands(t, "<head"@, p, 2);
            if root_place(t) is Some {
                lemma_stands(t, "<html"@, p, 2);
                assert(false);
            }
        },
    }
}

proof fn lemma_root_agrees(s: Seq<char>, t: Seq<char>, m: int)
    requires
        agree(s, t, m),
        root_place(s) is Some,
        root_place(s)->0 <= m,
    ensures
        root_place(t) == root_place(s),
{
    reveal_strlit("<html");
    lemma_prologue(s, 0);
    lemma_behind_agrees(s, t, m, "<html"@, prologue(s, 0));
    lemma_prologue_agrees(s, t, m, 0);
}

/// An empty `<head>` opens a head wherever one may stand.
proof fn lemma_plain_head(s: Seq<char>, i: int)
    requires
        stands_at(s, "<head>"@, i),
    ensures
        prologue(s, i) == i,
        behind_tag(s, "<head"@, i) == Some(i + 6),
{
    reveal_strlit("<head>");
    reveal_strlit("<head");
    let w = s.subrange(i, i + 6);
    assert(w[0] == s[i] && w[1] == s[i + 1] && w[2] == s[i + 2] && w[3] == s[i + 3] && w[4] == s[i
        + 4] && w[5] == s[i + 5]);
    assert(s[i] == '<' && s[i + 1] == 'h' && s[i + 5] == '>');
    assert(skip(s, i, s.len() as int, Class::Space) == i);
    assert(lower_all(s.subrange(i, i + 5)) =~= "<head"@) by {
        assert(s[i + 2] == 'e' && s[i + 3] == 'a' && s[i + 4] == 'd');
    }
    assert(stands_in_ci(s, "<head"@, i, s.len() as int));
    assert(tag_end(s, i + 5) == i + 5);
}

/// What is put behind the head's tag stands where the head begins.
pub proof fn head_stays_open(s: Seq<char>, more: Seq<char>)
    requires
        head_place(s) is Some,
    ensures
        ({
            let at = head_place(s)->0;
            &&& 0 <= at <= s.len()
            &&& head_place(s.subrange(0, at) + more + s.subrange(at, s.len() as int)) == Some(at)
        }),
{
    let at = head_place(s)->0;
    let from = match root_place(s) {
        Some(r) => r,
        None => 0,
    };
    reveal_strlit("<html");
    reveal_strlit("<head");
    lemma_prologue(s, 0);
    lemma_tag(s, prologue(s, 0) + 5);
    lemma_prologue(s, from);
    lemma_tag(s, prologue(s, from) + 5);
    let t = s.subrange(0, at) + more + s.subrange(at, s.len() as int);
    assert(agree(s, t, at));
    lemma_head_agrees(s, t, at);
}

/// A head that is put behind the `<html>` of a document is its head.
pub proof fn root_gets_a_head(s: Seq<char>, more: Seq<char>)
    requires
        root_place(s) is Some,
    ensures
        ({
            let at = root_place(s)->0;
            &&& 0 <= at <= s.len()
            &&& head_place(
                s.subrange(0, at) + "<head>"@ + more + s.subrange(at, s.len() as int),
            ) == Some(at + 6)
        }),
{
    let at = root_place(s)->0;
    reveal_strlit("<html");
    reveal_strlit("<head>");
    lemma_prologue(s, 0);
    lemma_tag(s, prologue(s, 0) + 5);
    let t = s.subrange(0, at) + "<head>"@ + more + s.subrange(at, s.len() as int);
    assert(agree(s, t, at));
    lemma_root_agrees(s, t, at);
    assert(t.subrange(at, at + 6) =~= "<head>"@);
    lemma_plain_head(t, at);
}

/// A document that is written out around its contents has the head that is written out.
pub proof fn written_head(more: Seq<char>)
    ensures
        head_place("<!doctype html><html><head>"@ + more) == Some(27int),
{
    reveal_strlit("<!doctype html><html><head>");
    reveal_strlit("<html");
    reveal_strlit("<head>");
    let lead = "<!doctype html><html><head>"@;
    let t = lead + more;
    let n = t.len() as int;
    assert(lead.len() == 27);
    assert forall|k: int| 0 <= k < 27 implies #[trigger] t[k] == lead[k] by {}
    assert(t[0] == '<' && t[1] == '!' && t[2] == 'd');
    assert(skip(t, 0, n, Class::Space) == 0);
    assert(!stands_at(t, seq!['<', '!', '-', '-'], 0)) by {
        if stands_at(t, seq!['<', '!', '-', '-'], 0) {
            assert(t.subrange(0, 4)[2] == '-');
        }
    }
    lemma_skip(t, 0, n, Class::Not('>'));
    assert(skip(t, 0, n, Class::Not('>')) == 14) by {
        let e = skip(t, 0, n, Class::Not('>'));
        assert(t[14] == '>');
        if e > 14 {
            assert(Class::Not('>').has(t[14]));
        }
        if e < 14 {
            assert(t[e] == lead[e]);
            assert(t[e] != '>');
        }
    }
    assert(declaration_end(t, 0) == Some(15int));
    assert(t[15] == '<' && t[16] == 'h' && t[20] == '>');
    assert(skip(t, 15, n, Class::Space) == 15);
    assert(prologue(t, 15) == 15);
    assert(prologue(t, 0) == 15);
    assert(lower_all(t.subrange(15, 20)) =~= "<html"@) by {
        assert(t[17] == 't' && t[18] == 'm' && t[19] == 'l');
    }
    assert(stands_in_ci(t, "<html"@, 15, n));
    assert(tag_end(t, 20) == 20);
    assert(root_place(t) == Some(21int));
    assert(t.subrange(21, 27) =~= "<head>"@);
    lemma_plain_head(t, 21);
}

} // verus!
