//! Remote references in a message's HTML: which URLs would be fetched from
//! another host, and the document with all of them taken out.

use vstd::prelude::*;
use vstd::slice::slice_subrange;

use crate::markup::{
    declaration_end, lemma_declaration, opens_declaration, read_declaration, tag_at, tag_stands,
};
use crate::stripping::{lemma_pass_weighs_less, weight};
use crate::text::{
    chars_of, copy_of, find_ci, find_from_ci, lower_all, lower_chars, push_range, same, skip, skip_over,
    space, string_of, trim, trimmed, Class, is_space, lemma_skip, lemma_stands,
};

verus! {

/// A place in a document: from the first position up to, not including, the second.
pub type Place = (int, int);

/// The places as mathematical integers.
pub open spec fn places(v: Seq<(usize, usize)>) -> Seq<Place> {
    v.map_values(|p: (usize, usize)| (p.0 as int, p.1 as int))
}

pub open spec fn url_open() -> Seq<char> {
    seq!['u', 'r', 'l', '(']
}

pub open spec fn import_word() -> Seq<char> {
    seq!['@', 'i', 'm', 'p', 'o', 'r', 't']
}

pub open spec fn style_close() -> Seq<char> {
    seq!['<', '/', 's', 't', 'y', 'l', 'e']
}

// ----- What counts as remote -----

/// The schemes that reach no remote host.
pub open spec fn harmless(scheme: Seq<char>) -> bool {
    ||| scheme == "data"@
    ||| scheme == "cid"@
    ||| scheme == "blocked"@
    ||| scheme == "mailto"@
    ||| scheme == "tel"@
    ||| scheme == "about"@
    ||| scheme == "javascript"@
}

/// Whether a URL reaches a remote host: a protocol-relative one does, and one
/// with a scheme of its own that is not [`harmless`].
pub open spec fn is_remote(url: Seq<char>) -> bool {
    let u = trim(url);
    let colon = skip(u, 0, u.len() as int, Class::Not(':'));
    if u.len() >= 2 && u[0] == '/' && u[1] == '/' {
        true
    } else {
        &&& 0 < colon < u.len()
        &&& skip(u, 0, colon, Class::Scheme) == colon
        &&& !harmless(lower_all(u.subrange(0, colon)))
    }
}

/// Whether a URL reaches a remote host.
///
/// `data:` and `cid:` carry their own bytes, and a path-relative or
/// root-relative URL resolves against a host that serves nothing. A
/// protocol-relative `//host/x` does reach the network.
pub fn is_remote_url(url: &[char]) -> (r: bool)
    ensures
        r == is_remote(url@),
{
    let u = trimmed(url);
    if u.len() >= 2 && u[0] == '/' && u[1] == '/' {
        return true;
    }
    let colon = skip_over(u, 0, u.len(), Class::Not(':'));
    if colon == 0 || colon >= u.len() {
        return false;
    }
    if skip_over(u, 0, colon, Class::Scheme) != colon {
        return false;
    }
    let lowered = lower_chars(slice_subrange(u, 0, colon));
    let scheme = string_of(&lowered);
    let s = scheme.as_str();
    !(same(s, "data") || same(s, "cid") || same(s, "blocked") || same(s, "mailto") || same(s, "tel")
        || same(s, "about") || same(s, "javascript"))
}

/// Whether an attribute on an element causes a fetch. `href` does on `<link>` and on
/// SVG's `<image>`, `<use>` and `<feImage>`, and on `<base>`, from which every relative URL of the
/// document is then fetched; on `<a>` it is a destination that the reader must click.
pub open spec fn fetching(tag: Seq<char>, attr: Seq<char>) -> bool {
    ||| attr == "src"@
    ||| attr == "poster"@
    ||| attr == "background"@
    ||| attr == "lowsrc"@
    ||| attr == "dynsrc"@
    ||| attr == "codebase"@
    ||| attr == "xlink:href"@
    ||| (attr == "data"@ && tag == "object"@)
    ||| (attr == "href"@ && (tag == "link"@ || tag == "image"@ || tag == "use"@ || tag == "feimage"@
        || tag == "base"@))
}

/// Whether an attribute on this element causes a fetch.
pub fn fetches(tag: &str, attr: &str) -> (r: bool)
    ensures
        r == fetching(tag@, attr@),
{
    same(attr, "src") || same(attr, "poster") || same(attr, "background") || same(attr, "lowsrc")
        || same(attr, "dynsrc") || same(attr, "codebase") || same(attr, "xlink:href") || (same(
        attr,
        "data",
    ) && same(tag, "object")) || (same(attr, "href") && (same(tag, "link") || same(tag, "image")
        || same(tag, "use") || same(tag, "feimage") || same(tag, "base")))
}

// ----- The URLs in one value -----

/// The URL that a value holds, if it is remote: the value's first run of
/// characters that are not white space.
pub open spec fn url_places(s: Seq<char>, start: int, end: int) -> Seq<Place> {
    let a = skip(s, start, end, Class::Space);
    let b = skip(s, a, end, Class::NotSpace);
    if a < b && is_remote(s.subrange(a, b)) {
        seq![(a, b)]
    } else {
        seq![]
    }
}

/// The remote URLs of a `srcset`: one candidate between any two commas.
pub open spec fn srcset_places(s: Seq<char>, at: int, end: int) -> Seq<Place>
    decreases end + 1 - at,
    via srcset_places_ends
{
    if at < end {
        let comma = skip(s, at, end, Class::Not(','));
        url_places(s, at, comma) + srcset_places(s, comma + 1, end)
    } else {
        seq![]
    }
}

#[via_fn]
proof fn srcset_places_ends(s: Seq<char>, at: int, end: int) {
    lemma_skip(s, at, end, Class::Not(','));
}

/// Where the value of a `url(` begins, `k` being the position behind the bracket.
pub open spec fn css_value_start(s: Seq<char>, k: int, end: int) -> int {
    let v = skip(s, k, end, Class::Space);
    if v < end && (s[v] == '"' || s[v] == '\'') {
        v + 1
    } else {
        v
    }
}

/// Where the value of a `url(` ends: at the quote that opened it, or, without
/// one, at a closing bracket or white space.
pub open spec fn css_value_end(s: Seq<char>, k: int, end: int) -> int {
    let v = skip(s, k, end, Class::Space);
    if v < end && (s[v] == '"' || s[v] == '\'') {
        skip(s, v + 1, end, Class::Not(s[v]))
    } else {
        skip(s, v, end, Class::NotNorSpace(')'))
    }
}

pub proof fn lemma_css_value(s: Seq<char>, k: int, end: int)
    requires
        k <= end,
    ensures
        k <= css_value_start(s, k, end) <= css_value_end(s, k, end) <= end,
{
    let v = skip(s, k, end, Class::Space);
    lemma_skip(s, k, end, Class::Space);
    if v < end && (s[v] == '"' || s[v] == '\'') {
        lemma_skip(s, v + 1, end, Class::Not(s[v]));
    } else {
        lemma_skip(s, v, end, Class::NotNorSpace(')'));
    }
}

/// A place, if it is not empty and the URL in it is remote.
pub open spec fn if_remote(s: Seq<char>, a: int, b: int) -> Seq<Place> {
    if a < b && is_remote(s.subrange(a, b)) {
        seq![(a, b)]
    } else {
        seq![]
    }
}

/// The remote URLs of the `url(…)`s of a stylesheet.
pub open spec fn css_url_places(s: Seq<char>, at: int, end: int) -> Seq<Place>
    decreases end - at,
    via css_url_places_ends
{
    match find_ci(s, url_open(), at, end) {
        Some(p) => {
            let a = css_value_start(s, p + 4, end);
            let b = css_value_end(s, p + 4, end);
            if_remote(s, a, b) + css_url_places(s, b, end)
        },
        None => seq![],
    }
}

#[via_fn]
proof fn css_url_places_ends(s: Seq<char>, at: int, end: int) {
    lemma_find_ci_bounds(s, url_open(), at, end);
    if let Some(p) = find_ci(s, url_open(), at, end) {
        lemma_css_value(s, p + 4, end);
    }
}

pub proof fn lemma_find_ci_bounds(s: Seq<char>, p: Seq<char>, at: int, end: int)
    ensures
        find_ci(s, p, at, end) matches Some(k) ==> at <= k && k + p.len() <= end,
    decreases end - at,
{
    if at >= end || at + p.len() > end {
    } else if crate::text::stands_at_ci(s, p, at) {
    } else {
        lemma_find_ci_bounds(s, p, at + 1, end);
    }
}

/// The remote URLs of the `@import "…"`s of a stylesheet.
pub open spec fn css_import_places(s: Seq<char>, at: int, end: int) -> Seq<Place>
    decreases end - at,
    via css_import_places_ends
{
    match find_ci(s, import_word(), at, end) {
        Some(p) => {
            let v = skip(s, p + 7, end, Class::Space);
            let here = if v < end && (s[v] == '"' || s[v] == '\'') {
                if_remote(s, v + 1, skip(s, v + 1, end, Class::Not(s[v])))
            } else {
                seq![]
            };
            here + css_import_places(s, p + 7, end)
        },
        None => seq![],
    }
}

#[via_fn]
proof fn css_import_places_ends(s: Seq<char>, at: int, end: int) {
    lemma_find_ci_bounds(s, import_word(), at, end);
}

/// The remote URLs of a stylesheet or of a `style` attribute.
pub open spec fn css_places(s: Seq<char>, start: int, end: int) -> Seq<Place> {
    css_url_places(s, start, end) + css_import_places(s, start, end)
}

/// The remote URLs in the value of one attribute.
pub open spec fn value_places(
    s: Seq<char>,
    tag: Seq<char>,
    attr: Seq<char>,
    start: int,
    end: int,
) -> Seq<Place> {
    if attr == "srcset"@ || attr == "imagesrcset"@ {
        srcset_places(s, start, end)
    } else if attr == "style"@ {
        css_places(s, start, end)
    } else if fetching(tag, attr) {
        url_places(s, start, end)
    } else {
        seq![]
    }
}

// ----- The walk over the document -----

/// An attribute as it stands in a tag: where its name ends, where its value
/// stands, if it has one, and where the next one may begin.
pub struct Attribute {
    pub name_end: int,
    pub valued: bool,
    pub start: int,
    pub end: int,
    pub next: int,
}

/// The attribute whose name begins at `j`. White space may stand on both sides
/// of the `=`; the value may be quoted or not.
pub open spec fn attribute_at(s: Seq<char>, j: int) -> Attribute {
    let n = s.len() as int;
    let name_end = skip(s, j, n, Class::AttrName);
    let eq = skip(s, name_end, n, Class::Space);
    let v = skip(s, eq + 1, n, Class::Space);
    if name_end == j {
        Attribute { name_end, valued: false, start: j, end: j, next: j + 1 }
    } else if eq >= n || s[eq] != '=' {
        Attribute { name_end, valued: false, start: name_end, end: name_end, next: name_end }
    } else if v < n && (s[v] == '"' || s[v] == '\'') {
        let end = skip(s, v + 1, n, Class::Not(s[v]));
        Attribute {
            name_end,
            valued: true,
            start: v + 1,
            end,
            next: if end < n {
                end + 1
            } else {
                end
            },
        }
    } else {
        let end = skip(s, v, n, Class::Unquoted);
        Attribute { name_end, valued: true, start: v, end, next: end }
    }
}

pub proof fn lemma_attribute(s: Seq<char>, j: int)
    requires
        0 <= j < s.len(),
    ensures
        ({
            let a = attribute_at(s, j);
            &&& j <= a.name_end <= s.len()
            &&& j < a.next <= s.len()
            &&& a.valued ==> a.name_end < a.start <= a.end <= a.next
            &&& j <= a.start <= a.end <= s.len()
        }),
{
    let n = s.len() as int;
    let name_end = skip(s, j, n, Class::AttrName);
    lemma_skip(s, j, n, Class::AttrName);
    let eq = skip(s, name_end, n, Class::Space);
    lemma_skip(s, name_end, n, Class::Space);
    let v = skip(s, eq + 1, n, Class::Space);
    lemma_skip(s, eq + 1, n, Class::Space);
    if v < n {
        lemma_skip(s, v + 1, n, Class::Not(s[v]));
    }
    lemma_skip(s, v, n, Class::Unquoted);
}

/// The remote URLs of a tag's attributes from `j` on, and where the tag ends:
/// at its `>`, or with the document.
pub open spec fn tag_places(s: Seq<char>, tag: Seq<char>, j: int) -> (Seq<Place>, int)
    decreases s.len() - j,
    when 0 <= j
    via tag_places_ends
{
    if j >= s.len() || s[j] == '>' {
        (seq![], j)
    } else if is_space(s[j]) || s[j] == '/' {
        tag_places(s, tag, j + 1)
    } else {
        let a = attribute_at(s, j);
        let rest = tag_places(s, tag, a.next);
        if a.valued {
            (
                value_places(s, tag, lower_all(s.subrange(j, a.name_end)), a.start, a.end) + rest.0,
                rest.1,
            )
        } else {
            rest
        }
    }
}

#[via_fn]
proof fn tag_places_ends(s: Seq<char>, tag: Seq<char>, j: int) {
    if j < s.len() {
        lemma_attribute(s, j);
    }
}

pub proof fn lemma_tag_end(s: Seq<char>, tag: Seq<char>, j: int)
    requires
        0 <= j <= s.len(),
    ensures
        j <= tag_places(s, tag, j).1 <= s.len(),
    decreases s.len() - j,
{
    if j >= s.len() || s[j] == '>' {
    } else if is_space(s[j]) || s[j] == '/' {
        lemma_tag_end(s, tag, j + 1);
    } else {
        lemma_attribute(s, j);
        lemma_tag_end(s, tag, attribute_at(s, j).next);
    }
}

/// Where the body of a `<style>` element whose tag ends at `j` begins.
pub open spec fn body_start(s: Seq<char>, j: int) -> int {
    if j + 1 < s.len() {
        j + 1
    } else {
        s.len() as int
    }
}

/// Where an element's text ends from `start` on: at the tag that closes it, whose
/// beginning is given, or with the document.
pub open spec fn text_end(s: Seq<char>, close: Seq<char>, start: int) -> int
    decreases s.len() - start,
{
    if start >= s.len() {
        s.len() as int
    } else if tag_stands(s, close, start) {
        start
    } else {
        text_end(s, close, start + 1)
    }
}

/// Where the body of a `<style>` element ends.
pub open spec fn body_end(s: Seq<char>, start: int) -> int {
    text_end(s, style_close(), start)
}

pub proof fn lemma_text_end(s: Seq<char>, close: Seq<char>, start: int)
    requires
        0 <= start <= s.len(),
    ensures
        start <= text_end(s, close, start) <= s.len(),
        text_end(s, close, start) < s.len() ==> tag_stands(s, close, text_end(s, close, start)),
    decreases s.len() - start,
{
    if start < s.len() && !tag_stands(s, close, start) {
        lemma_text_end(s, close, start + 1);
    }
}

pub proof fn lemma_body_end(s: Seq<char>, start: int)
    requires
        0 <= start <= s.len(),
    ensures
        start <= body_end(s, start) <= s.len(),
        body_end(s, start) < s.len() ==> s[body_end(s, start)] == '<',
{
    lemma_text_end(s, style_close(), start);
    if body_end(s, start) < s.len() {
        lemma_stands(s, style_close(), body_end(s, start), 0);
    }
}

fn find_text_end(s: &[char], close: &[char], start: usize) -> (r: usize)
    requires
        start <= s.len(),
    ensures
        r == text_end(s@, close@, start as int),
        start <= r <= s.len(),
{
    let mut k: usize = start;
    while k < s.len()
        invariant
            start <= k <= s.len(),
            text_end(s@, close@, k as int) == text_end(s@, close@, start as int),
        decreases s.len() - k,
    {
        if tag_at(s, close, k) {
            return k;
        }
        k = k + 1;
    }
    k
}

/// Finds where the body of a `<style>` element ends.
pub fn find_body_end(s: &[char], start: usize) -> (r: usize)
    requires
        start <= s.len(),
    ensures
        r == body_end(s@, start as int),
        start <= r <= s.len(),
{
    find_text_end(s, &style_close_chars(), start)
}

/// The elements besides `<style>` whose contents are text: nothing in them is a tag.
pub open spec fn holds_text(tag: Seq<char>) -> bool {
    ||| tag == "title"@
    ||| tag == "textarea"@
    ||| tag == "script"@
    ||| tag == "iframe"@
    ||| tag == "xmp"@
    ||| tag == "noembed"@
    ||| tag == "noframes"@
}

fn is_text_holder(tag: &str) -> (r: bool)
    ensures
        r == holds_text(tag@),
{
    same(tag, "title") || same(tag, "textarea") || same(tag, "script") || same(tag, "iframe")
        || same(tag, "xmp") || same(tag, "noembed") || same(tag, "noframes")
}

/// How the tag that closes an element begins.
pub open spec fn closing_tag(tag: Seq<char>) -> Seq<char> {
    seq!['<', '/'] + tag
}

/// Whether the tag whose attributes are read from `j` on closes itself with a `/>`.
pub open spec fn closes_itself(s: Seq<char>, j: int) -> bool
    decreases s.len() - j,
    when 0 <= j
    via closes_itself_ends
{
    if j >= s.len() || s[j] == '>' {
        false
    } else if s[j] == '/' && j + 1 < s.len() && s[j + 1] == '>' {
        true
    } else if is_space(s[j]) || s[j] == '/' {
        closes_itself(s, j + 1)
    } else {
        closes_itself(s, attribute_at(s, j).next)
    }
}

#[via_fn]
proof fn closes_itself_ends(s: Seq<char>, j: int) {
    if j < s.len() {
        lemma_attribute(s, j);
    }
}

fn self_closing(s: &[char], from: usize) -> (r: bool)
    requires
        from <= s.len(),
    ensures
        r == closes_itself(s@, from as int),
{
    let mut j: usize = from;
    while j < s.len() && s[j] != '>'
        invariant
            from <= j <= s.len(),
            closes_itself(s@, j as int) == closes_itself(s@, from as int),
        decreases s.len() - j,
    {
        if s[j] == '/' && s.len() - j > 1 && s[j + 1] == '>' {
            return true;
        }
        if space(s[j]) || s[j] == '/' {
            j = j + 1;
        } else {
            j = read_attribute(s, j).next;
        }
    }
    false
}

/// Behind the tag of that name, how many drawings and formulas are open: in them every
/// tag is one, whatever element it stands in. `opens` tells whether it is an opening
/// tag, `ne` where its name ends, and `depth` how many were open in front of it.
pub open spec fn depth_behind(s: Seq<char>, tag: Seq<char>, opens: bool, ne: int, depth: nat) -> nat {
    if tag != "svg"@ && tag != "math"@ {
        depth
    } else if !opens {
        if depth > 0 {
            (depth - 1) as nat
        } else {
            0
        }
    } else if closes_itself(s, ne) {
        depth
    } else {
        depth + 1
    }
}

/// Where the name of the tag whose `<` stands at `i` begins.
pub open spec fn name_start(s: Seq<char>, i: int) -> int {
    if i + 1 < s.len() && s[i + 1] == '/' {
        i + 2
    } else {
        i + 1
    }
}

/// Where a walk over the document goes on behind the tag of that name: behind the text
/// that its element holds, else at the tag's end. `opens` tells whether it is an opening
/// tag, `close` where it ends, and `depth` how many drawings and formulas are open.
pub open spec fn behind_element(
    s: Seq<char>,
    tag: Seq<char>,
    opens: bool,
    close: int,
    depth: nat,
) -> int {
    if opens && tag == "style"@ {
        body_end(s, body_start(s, close))
    } else if opens && depth == 0 && holds_text(tag) {
        text_end(s, closing_tag(tag), body_start(s, close))
    } else {
        close
    }
}

/// Finds where a walk over the document goes on behind the tag of that name. `nested`
/// tells whether a drawing or a formula is open.
pub fn find_behind_element(s: &[char], tag: &str, opens: bool, close: usize, nested: bool) -> (r:
    usize)
    requires
        close <= s.len(),
    ensures
        nested ==> forall|depth: nat|
            depth > 0 ==> r == #[trigger] behind_element(s@, tag@, opens, close as int, depth),
        !nested ==> r == behind_element(s@, tag@, opens, close as int, 0),
        close <= r <= s.len(),
{
    let n = s.len();
    let start: usize = if close < n {
        close + 1
    } else {
        n
    };
    if opens && same(tag, "style") {
        return find_body_end(s, start);
    }
    if opens && !nested && is_text_holder(tag) {
        let mut closing: Vec<char> = vec!['<', '/'];
        let mut letters = chars_of(tag);
        closing.append(&mut letters);
        assert(closing@ =~= closing_tag(tag@));
        return find_text_end(s, &closing, start);
    }
    close
}

/// The remote URLs of the stylesheet that the tag opens, if it opens one.
pub open spec fn sheet_places(s: Seq<char>, tag: Seq<char>, opens: bool, close: int) -> Seq<Place> {
    if opens && tag == "style"@ {
        css_places(s, body_start(s, close), body_end(s, body_start(s, close)))
    } else {
        seq![]
    }
}

/// Every remote URL of the document from `i` on, in the order in which a walk over its
/// tags meets them. Comments and the text that elements hold are passed over; `depth`
/// is how many drawings and formulas are open.
pub open spec fn walk_places(s: Seq<char>, i: int, depth: nat) -> Seq<Place>
    decreases s.len() - i,
    when 0 <= i
    via walk_places_ends
{
    let ns = name_start(s, i);
    let ne = skip(s, ns, s.len() as int, Class::TagName);
    let tag = lower_all(s.subrange(ns, ne));
    let inside = tag_places(s, tag, ne);
    let opens = ns == i + 1;
    if i >= s.len() {
        seq![]
    } else if opens_declaration(s, i) {
        match declaration_end(s, i) {
            Some(e) => walk_places(s, e, depth),
            None => seq![],
        }
    } else if s[i] != '<' || ne == ns {
        walk_places(s, i + 1, depth)
    } else {
        inside.0 + sheet_places(s, tag, opens, inside.1) + walk_places(
            s,
            behind_element(s, tag, opens, inside.1, depth),
            depth_behind(s, tag, opens, ne, depth),
        )
    }
}

#[via_fn]
proof fn walk_places_ends(s: Seq<char>, i: int, depth: nat) {
    lemma_walk_step(s, i, depth);
}

pub proof fn lemma_walk_step(s: Seq<char>, i: int, depth: nat)
    requires
        0 <= i,
    ensures
        declaration_end(s, i) matches Some(e) ==> i < e <= s.len(),
        i < s.len() ==> ({
            let ns = name_start(s, i);
            let ne = skip(s, ns, s.len() as int, Class::TagName);
            let tag = lower_all(s.subrange(ns, ne));
            let j = tag_places(s, tag, ne).1;
            let start = body_start(s, j);
            ne != ns ==> {
                &&& i < ns < ne <= j <= start <= body_end(s, start) <= s.len()
                &&& j <= behind_element(s, tag, ns == i + 1, j, depth) <= s.len()
            }
        }),
{
    lemma_declaration(s, i);
    if i < s.len() {
        let ns = name_start(s, i);
        let ne = skip(s, ns, s.len() as int, Class::TagName);
        lemma_skip(s, ns, s.len() as int, Class::TagName);
        if ne != ns {
            let tag = lower_all(s.subrange(ns, ne));
            lemma_tag_end(s, tag, ne);
            let start = body_start(s, tag_places(s, tag, ne).1);
            lemma_body_end(s, start);
            lemma_text_end(s, closing_tag(tag), start);
        }
    }
}

/// One place before another: by its start, then by its end.
pub open spec fn before(a: Place, b: Place) -> bool {
    a.0 < b.0 || (a.0 == b.0 && a.1 < b.1)
}

/// The places in ascending order, each once, with one more put in.
pub open spec fn put(ordered: Seq<Place>, p: Place) -> Seq<Place>
    decreases ordered.len(),
{
    if ordered.len() == 0 {
        seq![p]
    } else if ordered.last() == p {
        ordered
    } else if before(ordered.last(), p) {
        ordered.push(p)
    } else {
        put(ordered.drop_last(), p).push(ordered.last())
    }
}

/// The places in ascending order, each once.
pub open spec fn in_order(found: Seq<Place>) -> Seq<Place>
    decreases found.len(),
{
    if found.len() == 0 {
        seq![]
    } else {
        put(in_order(found.drop_last()), found.last())
    }
}

/// Every URL in the document that would cause a fetch from a remote host, in
/// ascending order, each once.
pub open spec fn remote_places(s: Seq<char>) -> Seq<Place> {
    in_order(walk_places(s, 0, 0))
}

// ----- The walk itself -----

/// Whether every place lies in a document of `n` characters and is not empty.
pub open spec fn sound(v: Seq<(usize, usize)>, n: int) -> bool {
    forall|k: int| 0 <= k < v.len() ==> (#[trigger] v[k]).0 < v[k].1 <= n
}

/// Puts the place among the others, in order and once.
fn put_place(found: &mut Vec<(usize, usize)>, a: usize, b: usize, n: Ghost<int>)
    requires
        a < b <= n@,
        sound(old(found)@, n@),
    ensures
        places(final(found)@) == put(places(old(found)@), (a as int, b as int)),
        sound(final(found)@, n@),
{
    let ghost before_all = found@;
    let ghost p = (a as int, b as int);
    let mut i: usize = found.len();
    let ghost mut rest: Seq<(usize, usize)> = seq![];
    proof {
        assert(before_all.subrange(0, i as int) =~= before_all);
        assert(put(places(before_all), p) + places(rest) =~= put(places(before_all), p));
    }
    while i > 0 && !(found[i - 1].0 < a || (found[i - 1].0 == a && found[i - 1].1 <= b))
        invariant
            i <= found.len(),
            found@ == before_all,
            rest == found@.subrange(i as int, found@.len() as int),
            p == (a as int, b as int),
            put(places(before_all), p) == put(places(before_all.subrange(0, i as int)), p) + places(
                rest,
            ),
        decreases i,
    {
        proof {
            let head = before_all.subrange(0, i as int);
            let shorter = before_all.subrange(0, i - 1);
            assert(places(head).drop_last() =~= places(shorter));
            assert(places(head).last() == (found@[i - 1].0 as int, found@[i - 1].1 as int));
            let longer = before_all.subrange(i - 1, before_all.len() as int);
            assert(longer =~= seq![before_all[i - 1]] + rest);
            assert(put(places(shorter), p).push(places(head).last()) + places(rest) =~= put(
                places(shorter),
                p,
            ) + places(longer));
            rest = longer;
        }
        i = i - 1;
    }
    proof {
        let head = before_all.subrange(0, i as int);
        assert(before_all =~= head + rest);
        if i > 0 {
            assert(places(head).last() == (found@[i - 1].0 as int, found@[i - 1].1 as int));
        }
        assert(places(before_all) =~= places(head) + places(rest));
    }
    if i > 0 && found[i - 1].0 == a && found[i - 1].1 == b {
        return ;
    }
    found.insert(i, (a, b));
    proof {
        let head = before_all.subrange(0, i as int);
        assert(found@ =~= head.push((a, b)) + rest);
        assert(places(found@) =~= places(head).push(p) + places(rest));
        if i == 0 {
            assert(places(head).push(p) =~= seq![p]);
        }
    }
}

/// Records the URL in `s[start..end]`, trimmed, if it is remote.
fn push_url(
    s: &[char],
    start: usize,
    end: usize,
    found: &mut Vec<(usize, usize)>,
    seen: Ghost<Seq<Place>>,
) -> (now: Ghost<Seq<Place>>)
    requires
        start <= end <= s.len(),
        sound(old(found)@, s@.len() as int),
        places(old(found)@) == in_order(seen@),
    ensures
        sound(final(found)@, s@.len() as int),
        now@ == seen@ + url_places(s@, start as int, end as int),
        places(final(found)@) == in_order(now@),
{
    let a = skip_over(s, start, end, Class::Space);
    let b = skip_over(s, a, end, Class::NotSpace);
    push_if_remote(s, a, b, found, seen)
}

/// Records the place if it is not empty and the URL in it is remote.
fn push_if_remote(
    s: &[char],
    a: usize,
    b: usize,
    found: &mut Vec<(usize, usize)>,
    seen: Ghost<Seq<Place>>,
) -> (now: Ghost<Seq<Place>>)
    requires
        a <= b <= s.len(),
        sound(old(found)@, s@.len() as int),
        places(old(found)@) == in_order(seen@),
    ensures
        sound(final(found)@, s@.len() as int),
        now@ == seen@ + if_remote(s@, a as int, b as int),
        places(final(found)@) == in_order(now@),
{
    if a < b && is_remote_url(slice_subrange(s, a, b)) {
        put_place(found, a, b, Ghost(s@.len() as int));
        proof {
            let p = (a as int, b as int);
            assert(seen@ + seq![p] =~= seen@.push(p));
            assert(seen@.push(p).drop_last() =~= seen@);
        }
        Ghost(seen@.push((a as int, b as int)))
    } else {
        proof {
            assert(seen@ + seq![] =~= seen@);
        }
        seen
    }
}

/// Records every remote URL of a `srcset`.
fn push_srcset(
    s: &[char],
    start: usize,
    end: usize,
    found: &mut Vec<(usize, usize)>,
    seen: Ghost<Seq<Place>>,
) -> (now: Ghost<Seq<Place>>)
    requires
        start <= end <= s.len(),
        sound(old(found)@, s@.len() as int),
        places(old(found)@) == in_order(seen@),
    ensures
        sound(final(found)@, s@.len() as int),
        now@ == seen@ + srcset_places(s@, start as int, end as int),
        places(final(found)@) == in_order(now@),
{
    let mut at: usize = start;
    let mut now: Ghost<Seq<Place>> = seen;
    while at < end
        invariant
            start <= at,
            end <= s.len(),
            sound(found@, s@.len() as int),
            now@ + srcset_places(s@, at as int, end as int) == seen@ + srcset_places(
                s@,
                start as int,
                end as int,
            ),
            places(found@) == in_order(now@),
        decreases end + 1 - at,
    {
        let comma = skip_over(s, at, end, Class::Not(','));
        let ghost had = now@;
        now = push_url(s, at, comma, found, now);
        proof {
            let here = url_places(s@, at as int, comma as int);
            let rest = srcset_places(s@, comma + 1, end as int);
            assert((had + here) + rest =~= had + (here + rest));
        }
        at = if comma < end {
            comma + 1
        } else {
            end
        };
    }
    proof {
        assert(now@ + seq![] =~= now@);
    }
    now
}

fn url_open_chars() -> (r: Vec<char>)
    ensures
        r@ == url_open(),
{
    vec!['u', 'r', 'l', '(']
}

fn import_chars() -> (r: Vec<char>)
    ensures
        r@ == import_word(),
{
    vec!['@', 'i', 'm', 'p', 'o', 'r', 't']
}

fn style_close_chars() -> (r: Vec<char>)
    ensures
        r@ == style_close(),
{
    vec!['<', '/', 's', 't', 'y', 'l', 'e']
}

/// Records every remote `url(…)` of a stylesheet or a `style` attribute.
fn push_css_urls(
    s: &[char],
    start: usize,
    end: usize,
    found: &mut Vec<(usize, usize)>,
    seen: Ghost<Seq<Place>>,
) -> (now: Ghost<Seq<Place>>)
    requires
        start <= end <= s.len(),
        sound(old(found)@, s@.len() as int),
        places(old(found)@) == in_order(seen@),
    ensures
        sound(final(found)@, s@.len() as int),
        now@ == seen@ + css_url_places(s@, start as int, end as int),
        places(final(found)@) == in_order(now@),
{
    let opening = url_open_chars();
    let mut at: usize = start;
    let mut now: Ghost<Seq<Place>> = seen;
    loop
        invariant
            at <= end <= s.len(),
            opening@ == url_open(),
            sound(found@, s@.len() as int),
            now@ + css_url_places(s@, at as int, end as int) == seen@ + css_url_places(
                s@,
                start as int,
                end as int,
            ),
            places(found@) == in_order(now@),
        decreases end - at,
    {
        match find_from_ci(s, &opening, at, end) {
            None => {
                proof {
                    assert(now@ + seq![] =~= now@);
                }
                return now;
            },
            Some(p) => {
                let k = skip_over(s, p + 4, end, Class::Space);
                let ghost had = now@;
                let a: usize;
                let b: usize;
                if k < end && (s[k] == '"' || s[k] == '\'') {
                    a = k + 1;
                    b = skip_over(s, a, end, Class::Not(s[k]));
                } else {
                    a = k;
                    b = skip_over(s, a, end, Class::NotNorSpace(')'));
                }
                now = push_if_remote(s, a, b, found, now);
                proof {
                    let here = if_remote(s@, a as int, b as int);
                    let rest = css_url_places(s@, b as int, end as int);
                    assert((had + here) + rest =~= had + (here + rest));
                }
                at = b;
            },
        }
    }
}

/// Records every remote `@import "…"` of a stylesheet or a `style` attribute.
fn push_css_imports(
    s: &[char],
    start: usize,
    end: usize,
    found: &mut Vec<(usize, usize)>,
    seen: Ghost<Seq<Place>>,
) -> (now: Ghost<Seq<Place>>)
    requires
        start <= end <= s.len(),
        sound(old(found)@, s@.len() as int),
        places(old(found)@) == in_order(seen@),
    ensures
        sound(final(found)@, s@.len() as int),
        now@ == seen@ + css_import_places(s@, start as int, end as int),
        places(final(found)@) == in_order(now@),
{
    let word = import_chars();
    let mut at: usize = start;
    let mut now: Ghost<Seq<Place>> = seen;
    loop
        invariant
            at <= end <= s.len(),
            word@ == import_word(),
            sound(found@, s@.len() as int),
            now@ + css_import_places(s@, at as int, end as int) == seen@ + css_import_places(
                s@,
                start as int,
                end as int,
            ),
            places(found@) == in_order(now@),
        decreases end - at,
    {
        match find_from_ci(s, &word, at, end) {
            None => {
                proof {
                    assert(now@ + seq![] =~= now@);
                }
                return now;
            },
            Some(p) => {
                let k = skip_over(s, p + 7, end, Class::Space);
                let ghost had = now@;
                let ghost mut here: Seq<Place> = seq![];
                if k < end && (s[k] == '"' || s[k] == '\'') {
                    let b = skip_over(s, k + 1, end, Class::Not(s[k]));
                    now = push_if_remote(s, k + 1, b, found, now);
                    proof {
                        here = if_remote(s@, k + 1, b as int);
                    }
                } else {
                    proof {
                        assert(had + here =~= had);
                    }
                }
                proof {
                    let rest = css_import_places(s@, p + 7, end as int);
                    assert((had + here) + rest =~= had + (here + rest));
                }
                at = p + 7;
            },
        }
    }
}

/// Records every remote `url(…)` and `@import "…"` in a stylesheet or `style=`.
fn push_css(
    s: &[char],
    start: usize,
    end: usize,
    found: &mut Vec<(usize, usize)>,
    seen: Ghost<Seq<Place>>,
) -> (now: Ghost<Seq<Place>>)
    requires
        start <= end <= s.len(),
        sound(old(found)@, s@.len() as int),
        places(old(found)@) == in_order(seen@),
    ensures
        sound(final(found)@, s@.len() as int),
        now@ == seen@ + css_places(s@, start as int, end as int),
        places(final(found)@) == in_order(now@),
{
    let after_urls = push_css_urls(s, start, end, found, seen);
    let now = push_css_imports(s, start, end, found, after_urls);
    proof {
        let u = css_url_places(s@, start as int, end as int);
        let i = css_import_places(s@, start as int, end as int);
        assert((seen@ + u) + i =~= seen@ + (u + i));
    }
    now
}

/// Records every remote URL in the value of one attribute.
fn push_value(
    s: &[char],
    tag: &str,
    attr: &str,
    start: usize,
    end: usize,
    found: &mut Vec<(usize, usize)>,
    seen: Ghost<Seq<Place>>,
) -> (now: Ghost<Seq<Place>>)
    requires
        start <= end <= s.len(),
        sound(old(found)@, s@.len() as int),
        places(old(found)@) == in_order(seen@),
    ensures
        sound(final(found)@, s@.len() as int),
        now@ == seen@ + value_places(s@, tag@, attr@, start as int, end as int),
        places(final(found)@) == in_order(now@),
{
    if same(attr, "srcset") || same(attr, "imagesrcset") {
        push_srcset(s, start, end, found, seen)
    } else if same(attr, "style") {
        push_css(s, start, end, found, seen)
    } else if fetches(tag, attr) {
        push_url(s, start, end, found, seen)
    } else {
        proof {
            assert(seen@ + seq![] =~= seen@);
        }
        seen
    }
}

/// An attribute's name and value, by their positions in the document.
#[derive(Clone, Copy)]
pub struct AttributeSpan {
    pub name_end: usize,
    pub valued: bool,
    pub start: usize,
    pub end: usize,
    pub next: usize,
}

impl AttributeSpan {
    pub open spec fn attribute(self) -> Attribute {
        Attribute {
            name_end: self.name_end as int,
            valued: self.valued,
            start: self.start as int,
            end: self.end as int,
            next: self.next as int,
        }
    }
}

/// Reads the attribute whose name begins at `j`.
pub fn read_attribute(s: &[char], j: usize) -> (a: AttributeSpan)
    requires
        j < s.len(),
    ensures
        a.attribute() == attribute_at(s@, j as int),
        j <= a.name_end <= s.len(),
        j < a.next <= s.len(),
        a.valued ==> a.name_end < a.start <= a.end <= a.next,
        j <= a.start <= a.end <= s.len(),
{
    proof {
        lemma_attribute(s@, j as int);
    }
    let n = s.len();
    let name_end = skip_over(s, j, n, Class::AttrName);
    if name_end == j {
        return AttributeSpan { name_end, valued: false, start: j, end: j, next: j + 1 };
    }
    let eq = skip_over(s, name_end, n, Class::Space);
    if eq >= n || s[eq] != '=' {
        return AttributeSpan {
            name_end,
            valued: false,
            start: name_end,
            end: name_end,
            next: name_end,
        };
    }
    let v = skip_over(s, eq + 1, n, Class::Space);
    if v < n && (s[v] == '"' || s[v] == '\'') {
        let end = skip_over(s, v + 1, n, Class::Not(s[v]));
        let next: usize = if end < n {
            end + 1
        } else {
            end
        };
        AttributeSpan { name_end, valued: true, start: v + 1, end, next }
    } else {
        let end = skip_over(s, v, n, Class::Unquoted);
        AttributeSpan { name_end, valued: true, start: v, end, next: end }
    }
}

/// Records every remote URL of a tag's attributes from `from` on; the result is
/// where the tag ends.
fn push_tag(
    s: &[char],
    tag: &str,
    from: usize,
    found: &mut Vec<(usize, usize)>,
    seen: Ghost<Seq<Place>>,
) -> (r: (usize, Ghost<Seq<Place>>))
    requires
        from <= s.len(),
        sound(old(found)@, s@.len() as int),
        places(old(found)@) == in_order(seen@),
    ensures
        sound(final(found)@, s@.len() as int),
        from <= r.0 <= s.len(),
        r.0 == tag_places(s@, tag@, from as int).1,
        r.1@ == seen@ + tag_places(s@, tag@, from as int).0,
        places(final(found)@) == in_order(r.1@),
{
    let mut j: usize = from;
    let mut now: Ghost<Seq<Place>> = seen;
    while j < s.len() && s[j] != '>'
        invariant
            from <= j <= s.len(),
            sound(found@, s@.len() as int),
            now@ + tag_places(s@, tag@, j as int).0 == seen@ + tag_places(s@, tag@, from as int).0,
            tag_places(s@, tag@, j as int).1 == tag_places(s@, tag@, from as int).1,
            places(found@) == in_order(now@),
        decreases s.len() - j,
    {
        if space(s[j]) || s[j] == '/' {
            j = j + 1;
        } else {
            let a = read_attribute(s, j);
            if a.valued {
                let ghost had = now@;
                let lowered = lower_chars(slice_subrange(s, j, a.name_end));
                let attr = string_of(&lowered);
                now = push_value(s, tag, attr.as_str(), a.start, a.end, found, now);
                proof {
                    let here = value_places(s@, tag@, attr@, a.start as int, a.end as int);
                    let rest = tag_places(s@, tag@, a.next as int).0;
                    assert((had + here) + rest =~= had + (here + rest));
                }
            }
            j = a.next;
        }
    }
    proof {
        assert(now@ + seq![] =~= now@);
    }
    (j, now)
}

/// Every URL in the document that would cause a fetch from a remote host, by its
/// positions in ascending order, each once. One walk feeds both the detector and
/// the stripper.
pub fn remote_url_spans(s: &[char]) -> (found: Vec<(usize, usize)>)
    ensures
        places(found@) == remote_places(s@),
        sound(found@, s@.len() as int),
{
    let n = s.len();
    let mut found: Vec<(usize, usize)> = Vec::new();
    let mut i: usize = 0;
    let mut depth: usize = 0;
    let mut now: Ghost<Seq<Place>> = Ghost(Seq::empty());
    proof {
        assert(places(found@) =~= seq![]);
        assert(now@ + walk_places(s@, 0, 0) =~= walk_places(s@, 0, 0));
    }
    while i < n
        invariant
            i <= n,
            n == s.len(),
            depth <= i,
            sound(found@, s@.len() as int),
            now@ + walk_places(s@, i as int, depth as nat) == walk_places(s@, 0, 0),
            places(found@) == in_order(now@),
        decreases n - i,
    {
        proof {
            lemma_walk_step(s@, i as int, depth as nat);
        }
        if n - i > 1 && s[i] == '<' && (s[i + 1] == '!' || s[i + 1] == '?') {
            match read_declaration(s, i) {
                Some(e) => {
                    i = e;
                },
                None => {
                    proof {
                        assert(walk_places(s@, i as int, depth as nat) == Seq::<Place>::empty());
                        assert(now@ + Seq::<Place>::empty() =~= now@);
                    }
                    return found;
                },
            }
            continue ;
        }
        let closing = n - i > 1 && s[i + 1] == '/';
        let from: usize = if closing {
            i + 2
        } else {
            i + 1
        };
        let name_end = skip_over(s, from, n, Class::TagName);
        if s[i] != '<' || name_end == from {
            i = i + 1;
            continue ;
        }
        let lowered = lower_chars(slice_subrange(s, from, name_end));
        let tag = string_of(&lowered);
        let name = tag.as_str();
        let ghost had = now@;
        let ghost was = depth as nat;
        let (close, after_tag) = push_tag(s, name, name_end, &mut found, now);
        let next = find_behind_element(s, name, !closing, close, depth > 0);
        if !closing && same(name, "style") {
            let start: usize = if close < n {
                close + 1
            } else {
                n
            };
            now = push_css(s, start, next, &mut found, after_tag);
        } else {
            now = after_tag;
            proof {
                assert(after_tag@ + seq![] =~= after_tag@);
            }
        }
        if same(name, "svg") || same(name, "math") {
            if closing {
                if depth > 0 {
                    depth = depth - 1;
                }
            } else if !self_closing(s, name_end) {
                depth = depth + 1;
            }
        }
        proof {
            let inside = tag_places(s@, tag@, name_end as int).0;
            let sheet = sheet_places(s@, tag@, !closing, close as int);
            let rest = walk_places(s@, next as int, depth as nat);
            assert(next as int == behind_element(s@, tag@, !closing, close as int, was));
            assert(depth as nat == depth_behind(s@, tag@, !closing, name_end as int, was));
            assert(now@ =~= had + inside + sheet);
            assert((had + inside + sheet) + rest =~= had + (inside + sheet + rest));
        }
        i = next;
    }
    proof {
        assert(now@ + seq![] =~= now@);
    }
    found
}

// ----- The stripped document -----

/// What stands in place of a remote URL.
pub open spec fn blocked() -> Seq<char> {
    "blocked://"@
}

/// The document from `at` on with each of the places rewritten; one that begins
/// inside a place already rewritten is passed over.
pub open spec fn rewritten(s: Seq<char>, at: int, found: Seq<Place>) -> Seq<char>
    decreases found.len(),
{
    if found.len() == 0 {
        s.subrange(at, s.len() as int)
    } else if found[0].0 < at {
        rewritten(s, at, found.drop_first())
    } else {
        s.subrange(at, found[0].0) + blocked() + rewritten(s, found[0].1, found.drop_first())
    }
}

/// The document with every remote URL that is found in it rewritten.
pub open spec fn pass(s: Seq<char>) -> Seq<char> {
    rewritten(s, 0, remote_places(s))
}

/// The document with nothing left to fetch: rewritten as often as something is found,
/// since one URL may reach over the beginning of another.
pub open spec fn stripped(s: Seq<char>) -> Seq<char>
    decreases weight(s),
    via stripped_ends
{
    if remote_places(s).len() == 0 {
        s
    } else {
        stripped(pass(s))
    }
}

#[via_fn]
proof fn stripped_ends(s: Seq<char>) {
    if remote_places(s).len() > 0 {
        lemma_pass_weighs_less(s);
    }
}

/// Rewrites the places that were found.
fn rewrite(s: &[char], found: &Vec<(usize, usize)>) -> (out: String)
    requires
        sound(found@, s@.len() as int),
    ensures
        out@ == rewritten(s@, 0, places(found@)),
{
    let mut out = String::new();
    let mut at: usize = 0;
    let mut k: usize = 0;
    let ghost want = rewritten(s@, 0, places(found@));
    proof {
        assert(places(found@).subrange(0, found@.len() as int) =~= places(found@));
        assert(out@ + want =~= want);
    }
    while k < found.len()
        invariant
            k <= found.len(),
            at <= s.len(),
            sound(found@, s@.len() as int),
            out@ + rewritten(
                s@,
                at as int,
                places(found@).subrange(k as int, found@.len() as int),
            ) == want,
        decreases found.len() - k,
    {
        let (a, b) = found[k];
        proof {
            let rest = places(found@).subrange(k as int, found@.len() as int);
            assert(rest[0] == (a as int, b as int));
            assert(rest.drop_first() =~= places(found@).subrange(k + 1, found@.len() as int));
        }
        if a >= at {
            let ghost had = out@;
            push_range(&mut out, s, at, a);
            out.append("blocked://");
            proof {
                let kept = s@.subrange(at as int, a as int);
                let tail = rewritten(
                    s@,
                    b as int,
                    places(found@).subrange(k + 1, found@.len() as int),
                );
                assert(((had + kept) + blocked()) + tail =~= had + (kept + blocked() + tail));
            }
            at = b;
        }
        k = k + 1;
    }
    push_range(&mut out, s, at, s.len());
    out
}

/// Neutralizes remote resource references so that nothing is fetched while they
/// are blocked. Only references that load something are touched; `<a href>`
/// links are left intact.
pub fn strip_remote(html: &str) -> (out: String)
    ensures
        out@ == stripped(html@),
        remote_places(out@).len() == 0,
{
    let mut out = copy_of(html);
    loop
        invariant
            stripped(out@) == stripped(html@),
        decreases weight(out@),
    {
        let s = chars_of(out.as_str());
        let found = remote_url_spans(&s);
        if found.len() == 0 {
            return out;
        }
        proof {
            lemma_pass_weighs_less(s@);
        }
        out = rewrite(&s, &found);
    }
}

/// Whether the document references remote resources. This decides whether the
/// banner about blocked content appears, and nothing more.
pub fn has_remote_resources(html: &str) -> (r: bool)
    ensures
        r == (remote_places(html@).len() > 0),
{
    let s = chars_of(html);
    let found = remote_url_spans(&s);
    found.len() > 0
}

} // verus!
