//! What is found of remote content inside of elements, and what is mere text there.

use vstd::prelude::*;

use crate::markup::tag_stands;
use crate::remote::{
    attribute_at, behind_element, blocked, body_start, closing_tag, css_places, depth_behind,
    holds_text, is_remote, remote_places, sheet_places, stripped, style_close, tag_places, text_end,
    value_places, walk_places, Attribute, Place,
};
use crate::remote_laws::{
    fits, is_attribute_name, is_tag_name, laid_out, leads_out, lemma_attribute_here, lemma_laid_out,
    lemma_loads, lemma_lower_plain, lemma_one_in_order, lemma_stripped_one, lemma_tag_begins,
    lemma_url_here, lemma_walk_end, loads, lone_tag, unspaced, value_place,
    web_is_remote,
};
use crate::stripping::{lemma_begins_blocked, lemma_blocked};
use crate::text::{
    lemma_skip, lemma_skip_to, lemma_stands, lower, lower_all, skip, stands_at_ci, Class,
};

verus! {

// ----- The same further on -----

proof fn lemma_skip_shift(s: Seq<char>, o: int, i: int, class: Class)
    requires
        0 <= o <= s.len(),
        0 <= i,
    ensures
        skip(s, o + i, s.len() as int, class) == o + skip(
            s.subrange(o, s.len() as int),
            i,
            s.len() - o,
            class,
        ),
    decreases s.len() - o - i,
{
    let t = s.subrange(o, s.len() as int);
    if i < t.len() {
        assert(t[i] == s[o + i]);
        lemma_skip_shift(s, o, i + 1, class);
    }
}

proof fn lemma_attribute_shift(s: Seq<char>, o: int, j: int)
    requires
        0 <= o <= s.len(),
        0 <= j,
    ensures
        ({
            let a = attribute_at(s.subrange(o, s.len() as int), j);
            attribute_at(s, o + j) == (Attribute {
                name_end: o + a.name_end,
                valued: a.valued,
                start: o + a.start,
                end: o + a.end,
                next: o + a.next,
            })
        }),
{
    let t = s.subrange(o, s.len() as int);
    let n = t.len() as int;
    lemma_skip_shift(s, o, j, Class::AttrName);
    let name_end = skip(t, j, n, Class::AttrName);
    lemma_skip(t, j, n, Class::AttrName);
    lemma_skip_shift(s, o, name_end, Class::Space);
    let eq = skip(t, name_end, n, Class::Space);
    lemma_skip(t, name_end, n, Class::Space);
    lemma_skip_shift(s, o, eq + 1, Class::Space);
    let v = skip(t, eq + 1, n, Class::Space);
    lemma_skip(t, eq + 1, n, Class::Space);
    if eq < n {
        assert(t[eq] == s[o + eq]);
    }
    if v < n {
        assert(t[v] == s[o + v]);
        lemma_skip_shift(s, o, v + 1, Class::Not(t[v]));
    }
    lemma_skip_shift(s, o, v, Class::Unquoted);
}

/// Whether the document of one tag stands from `o` on.
#[verifier::opaque]
spec fn goes_on(s: Seq<char>, o: int, t: Seq<char>, a: Seq<char>, q: Seq<char>, w: Seq<char>) -> bool {
    &&& 0 <= o <= s.len()
    &&& s.subrange(o, s.len() as int) == lone_tag(t, a, q, w)
}

proof fn lemma_tag_at(
    s: Seq<char>,
    o: int,
    t: Seq<char>,
    a: Seq<char>,
    q: Seq<char>,
    w: Seq<char>,
)
    requires
        goes_on(s, o, t, a, q, w),
        is_attribute_name(a),
        fits(q, w),
    ensures
        tag_places(s, lower_all(t), o + t.len() + 1) == (
            value_places(
                s,
                lower_all(t),
                lower_all(a),
                o + value_place(t, a, q, w).0,
                o + value_place(t, a, q, w).1,
            ),
            s.len() - 1,
        ),
{
    reveal(goes_on);
    let z = lone_tag(t, a, q, w);
    lemma_laid_out(t, a, q, w);
    lemma_attribute_here(z, t, a, q, w);
    reveal(laid_out);
    let n = s.len() as int;
    let j = t.len() as int + 2;
    let p = value_place(t, a, q, w);
    let tag = lower_all(t);
    lemma_attribute_shift(s, o, j);
    let found = value_places(s, tag, lower_all(a), o + p.0, o + p.1);
    assert(z[j] == a[0]);
    assert(s[o + j] == z[j]);
    assert(s[o + j - 1] == z[j - 1]);
    assert(s[n - 1] == z[z.len() - 1]);
    assert(Class::AttrName.has(a[0]));
    assert(s.subrange(o + j, o + j + a.len()) =~= z.subrange(j, j + a.len()));
    assert(tag_places(s, tag, n - 1) == (Seq::<Place>::empty(), n - 1));
    assert(tag_places(s, tag, o + j) == (found + Seq::<Place>::empty(), n - 1));
    assert(found + Seq::<Place>::empty() =~= found);
}

proof fn lemma_begins_at(
    s: Seq<char>,
    o: int,
    t: Seq<char>,
    a: Seq<char>,
    q: Seq<char>,
    w: Seq<char>,
)
    requires
        goes_on(s, o, t, a, q, w),
        is_tag_name(t),
        fits(q, w),
    ensures
        0 <= o,
        o + 2 < s.len(),
        s[o] == '<',
        s[o + 1] != '/' && s[o + 1] != '!' && s[o + 1] != '?',
        s.last() == '>',
        skip(s, o + 1, s.len() as int, Class::TagName) == o + t.len() + 1,
        s.subrange(o + 1, o + t.len() + 1) == t,
        s.subrange(o + value_place(t, a, q, w).0, o + value_place(t, a, q, w).1) == w,
        o + value_place(t, a, q, w).1 <= s.len(),
{
    reveal(goes_on);
    let z = lone_tag(t, a, q, w);
    let p = value_place(t, a, q, w);
    lemma_laid_out(t, a, q, w);
    lemma_tag_begins(z, t, a, q, w);
    lemma_skip_shift(s, o, 1, Class::TagName);
    assert(s[o] == z[0] && s[o + 1] == z[1] && s.last() == z.last());
    assert(s.subrange(o + 1, o + t.len() + 1) =~= z.subrange(1, t.len() as int + 1));
    assert(s.subrange(o + p.0, o + p.1) =~= z.subrange(p.0, p.1));
}

proof fn lemma_behind_end(s: Seq<char>, tag: Seq<char>, depth: nat)
    requires
        s.len() > 0,
        s.last() == '>',
    ensures
        sheet_places(s, tag, true, s.len() - 1) == Seq::<Place>::empty(),
        behind_element(s, tag, true, s.len() - 1, depth) == s.len() || behind_element(
            s,
            tag,
            true,
            s.len() - 1,
            depth,
        ) == s.len() - 1,
{
    let n = s.len() as int;
    assert(css_places(s, n, n) =~= Seq::<Place>::empty());
    assert(body_start(s, n - 1) == n);
    assert(text_end(s, closing_tag(tag), n) == n);
    assert(text_end(s, style_close(), n) == n);
}

proof fn lemma_walk_tag(s: Seq<char>, o: int, ne: int, depth: nat, found: Seq<Place>)
    requires
        0 <= o,
        o + 2 < s.len(),
        s[o] == '<',
        s[o + 1] != '/' && s[o + 1] != '!' && s[o + 1] != '?',
        s.last() == '>',
        o + 1 < ne == skip(s, o + 1, s.len() as int, Class::TagName),
        tag_places(s, lower_all(s.subrange(o + 1, ne)), ne) == (found, s.len() - 1),
    ensures
        walk_places(s, o, depth) == found,
{
    let n = s.len() as int;
    let tag = lower_all(s.subrange(o + 1, ne));
    lemma_behind_end(s, tag, depth);
    let next = behind_element(s, tag, true, n - 1, depth);
    let deeper = depth_behind(s, tag, true, ne, depth);
    lemma_walk_end(s, deeper);
    assert(walk_places(s, o, depth) == found + sheet_places(s, tag, true, n - 1) + walk_places(
        s,
        next,
        deeper,
    ));
    assert(found + Seq::<Place>::empty() + Seq::<Place>::empty() =~= found);
}

// ----- Elements -----

/// The document of a tag in an element.
#[verifier::opaque]
pub open spec fn inside(
    outer: Seq<char>,
    t: Seq<char>,
    a: Seq<char>,
    q: Seq<char>,
    w: Seq<char>,
) -> Seq<char> {
    "<"@ + outer + ">"@ + lone_tag(t, a, q, w)
}

/// The elements whose content is text, whatever it looks like.
pub open spec fn is_raw(tag: Seq<char>) -> bool {
    ||| tag == "title"@
    ||| tag == "textarea"@
    ||| tag == "script"@
    ||| tag == "iframe"@
    ||| tag == "xmp"@
    ||| tag == "noembed"@
    ||| tag == "noframes"@
}

proof fn lemma_inside(outer: Seq<char>, t: Seq<char>, a: Seq<char>, q: Seq<char>, w: Seq<char>)
    requires
        is_tag_name(outer),
    ensures
        ({
            let s = inside(outer, t, a, q, w);
            let ne = outer.len() as int + 1;
            &&& goes_on(s, ne + 1, t, a, q, w)
            &&& s.len() > ne
            &&& s[0] == '<'
            &&& s[1] != '/' && s[1] != '!' && s[1] != '?'
            &&& s[ne] == '>'
            &&& skip(s, 1, s.len() as int, Class::TagName) == ne
            &&& s.subrange(1, ne) == outer
        }),
{
    reveal(inside);
    reveal(goes_on);
    reveal_strlit("<");
    reveal_strlit(">");
    let s = inside(outer, t, a, q, w);
    let ne = outer.len() as int + 1;
    assert(s.subrange(ne + 1, s.len() as int) =~= lone_tag(t, a, q, w));
    assert(s[1] == outer[0]);
    assert(Class::TagName.has(outer[0]));
    assert forall|x: int| 1 <= x < ne implies Class::TagName.has(#[trigger] s[x]) by {
        assert(s[x] == outer[x - 1]);
    }
    lemma_skip_to(s, 1, ne, s.len() as int, Class::TagName);
    assert(s.subrange(1, ne) =~= outer);
}

proof fn lemma_walk_outer(s: Seq<char>, ne: int, found: Seq<Place>)
    requires
        1 < ne < s.len() - 1,
        s[0] == '<',
        s[1] != '/' && s[1] != '!' && s[1] != '?',
        s[ne] == '>',
        skip(s, 1, s.len() as int, Class::TagName) == ne,
        lower_all(s.subrange(1, ne)) != "style"@,
        !holds_text(lower_all(s.subrange(1, ne))),
        forall|depth: nat| #[trigger] walk_places(s, ne + 1, depth) == found,
    ensures
        walk_places(s, 0, 0) == found,
{
    let none = Seq::<Place>::empty();
    let tag = lower_all(s.subrange(1, ne));
    assert(tag_places(s, tag, ne) == (none, ne));
    let deeper = depth_behind(s, tag, true, ne, 0);
    assert(behind_element(s, tag, true, ne, 0) == ne);
    assert(walk_places(s, ne + 1, deeper) == found);
    assert(walk_places(s, ne, deeper) == found);
    assert(walk_places(s, 0, 0) == none + none + walk_places(s, ne, deeper));
    assert(none + none + found =~= found);
}

proof fn lemma_inside_places(
    outer: Seq<char>,
    t: Seq<char>,
    a: Seq<char>,
    q: Seq<char>,
    w: Seq<char>,
)
    requires
        is_tag_name(outer),
        lower_all(outer) != "style"@,
        !is_raw(lower_all(outer)),
        is_tag_name(t),
        is_attribute_name(a),
        fits(q, w),
    ensures
        ({
            let s = inside(outer, t, a, q, w);
            let o = outer.len() as int + 2;
            let p = value_place(t, a, q, w);
            &&& 0 <= o + p.0 <= o + p.1 <= s.len()
            &&& s.subrange(o + p.0, o + p.1) == w
            &&& walk_places(s, 0, 0) == value_places(
                s,
                lower_all(t),
                lower_all(a),
                o + p.0,
                o + p.1,
            )
        }),
{
    let s = inside(outer, t, a, q, w);
    let o = outer.len() as int + 2;
    let p = value_place(t, a, q, w);
    lemma_inside(outer, t, a, q, w);
    lemma_begins_at(s, o, t, a, q, w);
    lemma_tag_at(s, o, t, a, q, w);
    let found = value_places(s, lower_all(t), lower_all(a), o + p.0, o + p.1);
    assert forall|depth: nat| #[trigger] walk_places(s, o, depth) == found by {
        lemma_walk_tag(s, o, o + t.len() + 1, depth, found);
    }
    lemma_walk_outer(s, o - 1, found);
}

proof fn lemma_inside_found(
    outer: Seq<char>,
    t: Seq<char>,
    a: Seq<char>,
    q: Seq<char>,
    u: Seq<char>,
)
    requires
        is_tag_name(outer),
        lower_all(outer) != "style"@,
        !is_raw(lower_all(outer)),
        is_tag_name(t),
        is_attribute_name(a),
        loads(lower_all(t), lower_all(a)),
        fits(q, u),
        unspaced(u),
    ensures
        ({
            let s = inside(outer, t, a, q, u);
            let o = outer.len() as int + 2;
            let p = value_place(t, a, q, u);
            &&& 0 <= o + p.0 < o + p.1 <= s.len()
            &&& remote_places(s) == (if is_remote(u) {
                seq![(o + p.0, o + p.1)]
            } else {
                seq![]
            })
        }),
{
    let s = inside(outer, t, a, q, u);
    let o = outer.len() as int + 2;
    let p = value_place(t, a, q, u);
    lemma_loads(lower_all(t), lower_all(a));
    lemma_inside_places(outer, t, a, q, u);
    lemma_url_here(s, (o + p.0, o + p.1), u);
    lemma_one_in_order((o + p.0, o + p.1));
}

/// What would be loaded inside of an element is found and taken out, whatever the element,
/// save those whose content is mere text.
pub proof fn inner_addresses_are_withheld(
    outer: Seq<char>,
    t: Seq<char>,
    a: Seq<char>,
    q: Seq<char>,
    u: Seq<char>,
)
    requires
        is_tag_name(outer),
        lower_all(outer) != "style"@,
        !is_raw(lower_all(outer)),
        is_tag_name(t),
        is_attribute_name(a),
        loads(lower_all(t), lower_all(a)),
        fits(q, u),
        unspaced(u),
        leads_out(u),
    ensures
        stripped(inside(outer, t, a, q, u)) == inside(outer, t, a, q, "blocked://"@),
{
    let s = inside(outer, t, a, q, u);
    let o = outer.len() as int + 2;
    let p = value_place(t, a, q, u);
    web_is_remote(u);
    lemma_inside_replaced(outer, t, a, q, u);
    lemma_inside_found(outer, t, a, q, u);
    lemma_inside_found(outer, t, a, q, blocked());
    lemma_stripped_one(s, (o + p.0, o + p.1), inside(outer, t, a, q, blocked()));
}

proof fn lemma_inside_replaced(
    outer: Seq<char>,
    t: Seq<char>,
    a: Seq<char>,
    q: Seq<char>,
    u: Seq<char>,
)
    requires
        fits(q, u),
    ensures
        fits(q, blocked()),
        unspaced(blocked()),
        !is_remote(blocked()),
        ({
            let s = inside(outer, t, a, q, u);
            let o = outer.len() as int + 2;
            let p = value_place(t, a, q, u);
            inside(outer, t, a, q, blocked()) == s.subrange(0, o + p.0) + blocked() + s.subrange(
                o + p.1,
                s.len() as int,
            )
        }),
{
    lemma_blocked();
    lemma_begins_blocked(blocked());
    reveal(inside);
    reveal(lone_tag);
    reveal_strlit("<");
    reveal_strlit(" ");
    reveal_strlit("=");
    reveal_strlit(">");
    reveal_strlit("\"");
    reveal_strlit("'");
    let s = inside(outer, t, a, q, u);
    let o = outer.len() as int + 2;
    let p = value_place(t, a, q, u);
    assert(s.subrange(0, o + p.0) =~= "<"@ + outer + ">"@ + "<"@ + t + " "@ + a + "="@ + q);
    assert(s.subrange(o + p.1, s.len() as int) =~= q + ">"@);
    assert(inside(outer, t, a, q, blocked()) =~= ("<"@ + outer + ">"@ + "<"@ + t + " "@ + a + "="@ + q)
        + blocked() + (q + ">"@));
}

// ----- Mere text -----

/// The document of one element with a text in it.
#[verifier::opaque]
pub open spec fn element(t: Seq<char>, c: Seq<char>) -> Seq<char> {
    "<"@ + t + ">"@ + c + "</"@ + t + ">"@
}

/// Whether a text closes no element.
pub open spec fn closes_nothing(c: Seq<char>) -> bool {
    forall|k: int| 0 <= k < c.len() && #[trigger] c[k] == '<' ==> k + 1 < c.len() && c[k + 1] != '/'
}

proof fn lemma_raw_end(s: Seq<char>, close: Seq<char>, i: int, e: int)
    requires
        0 <= i <= e < s.len(),
        close.len() > 1,
        close[0] == '<',
        close[1] == '/',
        forall|x: int| i <= x < e && #[trigger] s[x] == '<' ==> s[x + 1] != '/',
        tag_stands(s, close, e),
    ensures
        text_end(s, close, i) == e,
    decreases e - i,
{
    if i < e {
        if tag_stands(s, close, i) {
            lemma_stands(s, close, i, 0);
            lemma_stands(s, close, i, 1);
            lemma_lower_plain(s[i]);
            lemma_lower_slash(s[i + 1]);
        }
        lemma_raw_end(s, close, i + 1, e);
    }
}

proof fn lemma_lower_slash(c: char)
    ensures
        (lower(c) == '/') == (c == '/'),
{
}

#[verifier::opaque]
spec fn element_stands(s: Seq<char>, t: Seq<char>, c: Seq<char>) -> bool {
    let ne = t.len() as int + 1;
    let e = ne + 1 + c.len();
    &&& s.len() == e + 2 + t.len() + 1
    &&& s[0] == '<'
    &&& s[1] != '/' && s[1] != '!' && s[1] != '?'
    &&& s[ne] == '>'
    &&& skip(s, 1, s.len() as int, Class::TagName) == ne
    &&& s.subrange(1, ne) == t
    &&& forall|x: int| ne + 1 <= x < e && #[trigger] s[x] == '<' ==> s[x + 1] != '/'
    &&& s[e] == '<' && s[e + 1] == '/'
    &&& s.last() == '>'
    &&& skip(s, e + 2, s.len() as int, Class::TagName) == s.len() - 1
    &&& s.subrange(e + 2, s.len() - 1) == t
    &&& tag_stands(s, closing_tag(lower_all(t)), e)
}

proof fn lemma_element_stands(t: Seq<char>, c: Seq<char>)
    requires
        is_tag_name(t),
        closes_nothing(c),
    ensures
        element_stands(element(t, c), t, c),
{
    reveal(element_stands);
    reveal(element);
    reveal_strlit("<");
    reveal_strlit(">");
    reveal_strlit("</");
    let s = element(t, c);
    let n = s.len() as int;
    let ne = t.len() as int + 1;
    let e = ne + 1 + c.len();
    assert(s[1] == t[0]);
    assert(Class::TagName.has(t[0]));
    assert forall|x: int| 1 <= x < ne implies Class::TagName.has(#[trigger] s[x]) by {
        assert(s[x] == t[x - 1]);
    }
    assert forall|x: int| e + 2 <= x < n - 1 implies Class::TagName.has(#[trigger] s[x]) by {
        assert(s[x] == t[x - e - 2]);
    }
    lemma_skip_to(s, 1, ne, n, Class::TagName);
    lemma_skip_to(s, e + 2, n - 1, n, Class::TagName);
    assert(s.subrange(1, ne) =~= t);
    assert(s.subrange(e + 2, n - 1) =~= t);
    assert forall|x: int| ne + 1 <= x < e && #[trigger] s[x] == '<' implies s[x + 1] != '/' by {
        let k = x - ne - 1;
        assert(c[k] == s[x]);
        assert(s[x + 1] == c[k + 1]);
    }
    let close = closing_tag(lower_all(t));
    assert(lower_all(s.subrange(e, e + close.len())) =~= close);
    assert(stands_at_ci(s, close, e));
}

proof fn lemma_raw_walk(s: Seq<char>, t: Seq<char>, c: Seq<char>)
    requires
        element_stands(s, t, c),
        is_tag_name(t),
        is_raw(lower_all(t)),
        lower_all(t) != "style"@,
    ensures
        walk_places(s, 0, 0) == Seq::<Place>::empty(),
{
    reveal(element_stands);
    let none = Seq::<Place>::empty();
    let n = s.len() as int;
    let ne = t.len() as int + 1;
    let e = ne + 1 + c.len();
    let tag = lower_all(t);
    lemma_raw_end(s, closing_tag(tag), ne + 1, e);
    assert(tag_places(s, tag, ne) == (none, ne));
    assert(body_start(s, ne) == ne + 1);
    assert(behind_element(s, tag, true, ne, 0) == e);
    let deeper = depth_behind(s, tag, true, ne, 0);
    lemma_close_walk(s, e, tag, deeper);
    assert(walk_places(s, 0, 0) == none + none + walk_places(s, e, deeper));
    assert(none + none + none =~= none);
}

proof fn lemma_close_walk(s: Seq<char>, e: int, tag: Seq<char>, depth: nat)
    requires
        0 <= e,
        e + 3 < s.len(),
        s[e] == '<' && s[e + 1] == '/',
        s.last() == '>',
        skip(s, e + 2, s.len() as int, Class::TagName) == s.len() - 1,
        lower_all(s.subrange(e + 2, s.len() - 1)) == tag,
    ensures
        walk_places(s, e, depth) == Seq::<Place>::empty(),
{
    let none = Seq::<Place>::empty();
    let n = s.len() as int;
    assert(tag_places(s, tag, n - 1) == (none, n - 1));
    let deeper = depth_behind(s, tag, false, n - 1, depth);
    lemma_walk_end(s, deeper);
    assert(behind_element(s, tag, false, n - 1, depth) == n - 1);
    assert(walk_places(s, e, depth) == none + none + walk_places(s, n - 1, deeper));
    assert(none + none + none =~= none);
}

proof fn lemma_raw_not_style(tag: Seq<char>)
    requires
        is_raw(tag),
    ensures
        tag != "style"@,
{
    reveal_strlit("title");
    reveal_strlit("textarea");
    reveal_strlit("script");
    reveal_strlit("iframe");
    reveal_strlit("xmp");
    reveal_strlit("noembed");
    reveal_strlit("noframes");
    reveal_strlit("style");
    assert("title"@[0] == 't' && "style"@[0] == 's');
    assert("title"@.len() == 5 && "textarea"@.len() == 8 && "script"@.len() == 6 && "iframe"@.len() == 6
        && "xmp"@.len() == 3 && "noembed"@.len() == 7 && "noframes"@.len() == 8 && "style"@.len() == 5);
}

/// What stands in an element whose content is mere text loads nothing and stays as it was
/// written, tags and addresses and all.
pub proof fn mere_text_stays(t: Seq<char>, c: Seq<char>)
    requires
        is_tag_name(t),
        is_raw(lower_all(t)),
        closes_nothing(c),
    ensures
        remote_places(element(t, c)) == Seq::<Place>::empty(),
        stripped(element(t, c)) == element(t, c),
{
    lemma_raw_not_style(lower_all(t));
    lemma_element_stands(t, c);
    lemma_raw_walk(element(t, c), t, c);
    lemma_one_in_order((0, 0));
}

} // verus!
